use crate::buffer::InputBuffer;
use crate::config::{ComboConfig, ComboDefinition, DefaultComboConfig, KeyAction};
use crate::event::{tap_of, InputResult};
use crate::keycode::KeyCode;
use crate::tap_dance::push_all;
use crate::lists::{
    active_from_vec, active_new, active_push, active_to_vec, codes_from_vec, codes_new, codes_push, codes_to_vec,
    combo_keys_from_vec, combo_keys_items, combo_keys_new, combo_keys_set, combo_keys_push, combo_keys_to_vec, contains_code,
    listed_active, listed_codes, listed_combo_keys, codes_retain_other, ActiveComboList, CodeList, ComboKeyList,
};
use vstd::prelude::*;
use vstd::seq_lib::{to_multiset_build, to_multiset_insert};

verus! {

/// A pressed key that takes part in some combo.
#[derive(Debug, Clone, Copy, PartialEq, Eq, Structural)]
pub struct ComboKey {
    pub code: u16,
    /// Milliseconds on the engine's monotonic clock.
    pub pressed_at: u64,
    pub released: bool,
    /// The key was held past the threshold (kernel auto-repeat seen).
    pub hold: bool,
}

/// A combo that has fired and is latched: the index of its definition and
/// the code it pressed, if its action is a key code.
#[derive(Debug, Clone, Copy, PartialEq, Eq, Structural)]
pub struct ActiveCombo {
    pub id: usize,
    pub code: Option<u16>,
}

/// More than `threshold` milliseconds have passed since the press.
pub open spec fn window_closed(k: ComboKey, now: u64, threshold: u16) -> bool {
    now as int - k.pressed_at as int > threshold as int
}

/// The result of a key whose chord window has closed: a tap where it was
/// released in the window, else its press.
pub open spec fn solo_result(k: ComboKey) -> InputResult {
    if k.released {
        tap_of(KeyCode(k.code))
    } else {
        InputResult::Press(KeyCode(k.code))
    }
}

/// The results of the key-resolution pass, in record order.
pub open spec fn key_results(keys: Seq<ComboKey>, suppressed: Seq<u16>, now: u64, threshold: u16) -> Seq<InputResult>
    decreases keys.len(),
{
    if keys.len() == 0 {
        Seq::empty()
    } else {
        let prev = key_results(keys.drop_last(), suppressed, now, threshold);
        let k = keys.last();
        if !suppressed.contains(k.code) && window_closed(k, now, threshold) {
            prev.push(solo_result(k))
        } else {
            prev
        }
    }
}

/// The records that stay after the key-resolution pass: suppressed keys that
/// are still down, and other keys whose window is still open.
pub open spec fn key_kept(keys: Seq<ComboKey>, suppressed: Seq<u16>, now: u64, threshold: u16) -> Seq<ComboKey>
    decreases keys.len(),
{
    if keys.len() == 0 {
        Seq::empty()
    } else {
        let prev = key_kept(keys.drop_last(), suppressed, now, threshold);
        let k = keys.last();
        if suppressed.contains(k.code) {
            if k.released {
                prev
            } else {
                prev.push(k)
            }
        } else if window_closed(k, now, threshold) {
            prev
        } else {
            prev.push(k)
        }
    }
}

/// `j` is the first record of `code`.
pub open spec fn first_record_at(keys: Seq<ComboKey>, code: u16, j: int) -> bool {
    0 <= j < keys.len() && keys[j].code == code && forall|i: int| 0 <= i < j ==> #[trigger] keys[i].code != code
}

/// `code` has a record that is not released.
pub open spec fn is_down(keys: Seq<ComboKey>, code: u16) -> bool {
    exists|j: int| 0 <= j < keys.len() && #[trigger] keys[j].code == code && !keys[j].released
}

/// `code` has a record that is not released and is held past the threshold.
pub open spec fn is_held(keys: Seq<ComboKey>, code: u16) -> bool {
    exists|j: int| 0 <= j < keys.len() && #[trigger] keys[j].code == code && !keys[j].released && keys[j].hold
}

/// Some trigger key of the combo is still down.
pub open spec fn latched(triggers: Seq<KeyCode>, keys: Seq<ComboKey>) -> bool {
    exists|t: int| 0 <= t < triggers.len() && is_down(keys, #[trigger] triggers[t].0)
}

/// Some trigger key of the combo is down and held past the threshold.
pub open spec fn repeating(triggers: Seq<KeyCode>, keys: Seq<ComboKey>) -> bool {
    exists|t: int| 0 <= t < triggers.len() && is_held(keys, #[trigger] triggers[t].0)
}

/// `code` has a record that is not held out.
pub open spec fn is_chord_ready(keys: Seq<ComboKey>, code: u16) -> bool {
    exists|j: int| 0 <= j < keys.len() && #[trigger] keys[j].code == code && !keys[j].hold
}

/// The combo can fire: it has keys, each is pressed and not held out, and
/// none is consumed by another active combo.
pub open spec fn can_fire(def: ComboDefinition, keys: Seq<ComboKey>, suppressed: Seq<u16>) -> bool {
    &&& def.keys@.len() > 0
    &&& forall|t: int| 0 <= t < def.keys@.len() ==> is_chord_ready(keys, #[trigger] def.keys@[t].0)
    &&& forall|t: int| 0 <= t < def.keys@.len() ==> !suppressed.contains(#[trigger] def.keys@[t].0)
}

/// `code` occurs in some definition.
pub open spec fn in_some_combo(defs: Seq<ComboDefinition>, code: u16) -> bool {
    exists|d: int, t: int| 0 <= d < defs.len() && 0 <= t < defs[d].keys@.len() && #[trigger] defs[d].keys@[t].0 == code
}

/// The results of the active-combo pass: a latched combo with a key code
/// repeats it while a trigger is held; a combo whose triggers are all up
/// releases its code.
pub open spec fn active_results(active: Seq<ActiveCombo>, defs: Seq<ComboDefinition>, keys: Seq<ComboKey>) -> Seq<InputResult>
    decreases active.len(),
{
    if active.len() == 0 {
        Seq::empty()
    } else {
        let prev = active_results(active.drop_last(), defs, keys);
        let a = active.last();
        let triggers = defs[a.id as int].keys@;
        match a.code {
            Some(c) => if latched(triggers, keys) {
                if repeating(triggers, keys) {
                    prev.push(InputResult::Hold(KeyCode(c)))
                } else {
                    prev
                }
            } else {
                prev.push(InputResult::Release(KeyCode(c)))
            },
            None => prev,
        }
    }
}

/// The active combos that stay latched, in order.
pub open spec fn still_latched(active: Seq<ActiveCombo>, defs: Seq<ComboDefinition>, keys: Seq<ComboKey>) -> Seq<ActiveCombo>
    decreases active.len(),
{
    if active.len() == 0 {
        Seq::empty()
    } else {
        let prev = still_latched(active.drop_last(), defs, keys);
        let a = active.last();
        if latched(defs[a.id as int].keys@, keys) {
            prev.push(a)
        } else {
            prev
        }
    }
}

/// `code` is a trigger of some combo in `active` that is no longer latched.
pub open spec fn unlatched_trigger(active: Seq<ActiveCombo>, defs: Seq<ComboDefinition>, keys: Seq<ComboKey>, code: u16) -> bool {
    exists|a: int, t: int|
        0 <= a < active.len() && !latched(defs[active[a].id as int].keys@, keys)
            && 0 <= t < defs[active[a].id as int].keys@.len() && #[trigger] defs[active[a].id as int].keys@[t]
            == KeyCode(code)
}

/// The result of firing a combo.
pub open spec fn fire_result(def: ComboDefinition) -> InputResult {
    match def.action {
        KeyAction::KeyCode(c) => InputResult::Press(c),
        KeyAction::Macro(m) => InputResult::Macro(m),
    }
}

/// The results of firing `fired`, in order.
pub open spec fn fire_results(fired: Seq<ActiveCombo>, defs: Seq<ComboDefinition>) -> Seq<InputResult>
    decreases fired.len(),
{
    if fired.len() == 0 {
        Seq::empty()
    } else {
        fire_results(fired.drop_last(), defs).push(fire_result(defs[fired.last().id as int]))
    }
}

/// `def` could fire once the key and active-combo passes are done: it has
/// keys, each pressed and not held out, and none still consumed by a combo
/// that stays latched.
pub open spec fn could_fire_after_upkeep(
    def: ComboDefinition,
    keys: Seq<ComboKey>,
    suppressed: Seq<u16>,
    active: Seq<ActiveCombo>,
    defs: Seq<ComboDefinition>,
) -> bool {
    &&& def.keys@.len() > 0
    &&& forall|t: int| 0 <= t < def.keys@.len() ==> is_chord_ready(keys, #[trigger] def.keys@[t].0)
    &&& forall|t: int| 0 <= t < def.keys@.len() ==> !(suppressed.contains(#[trigger] def.keys@[t].0)
        && !unlatched_trigger(active, defs, keys, def.keys@[t].0))
}

/// `c` is a trigger of one of the combos in `fired`.
pub open spec fn fired_trigger(fired: Seq<ActiveCombo>, defs: Seq<ComboDefinition>, c: u16) -> bool {
    exists|a: int, t: int|
        0 <= a < fired.len() && 0 <= t < defs[fired[a].id as int].keys@.len()
            && #[trigger] defs[fired[a].id as int].keys@[t].0 == c
}

/// Definition `d` comes before definition `e` in firing order: it has more
/// keys, or as many and is declared first.
pub open spec fn fires_before(defs: Seq<ComboDefinition>, d: int, e: int) -> bool {
    defs[e].keys@.len() < defs[d].keys@.len() || (defs[e].keys@.len() == defs[d].keys@.len() && d < e)
}

/// Each combo in `fired` came before the next in firing order.
pub open spec fn fired_in_order(fired: Seq<ActiveCombo>, defs: Seq<ComboDefinition>) -> bool {
    forall|k: int| 0 <= k < fired.len() - 1 ==> fires_before(defs, #[trigger] fired[k].id as int, fired[k + 1].id as int)
}

proof fn lemma_can_fire_fewer_suppressed(def: ComboDefinition, keys: Seq<ComboKey>, s1: Seq<u16>, s2: Seq<u16>)
    requires
        forall|c: u16| s1.contains(c) ==> s2.contains(c),
        can_fire(def, keys, s2),
    ensures
        can_fire(def, keys, s1),
{
    assert forall|t: int| 0 <= t < def.keys@.len() implies !s1.contains(#[trigger] def.keys@[t].0) by {
        assert(!s2.contains(def.keys@[t].0));
    }
}

/// How many keys a definition has.
pub open spec fn arity(d: ComboDefinition) -> nat {
    d.keys@.len()
}

/// Where `x` goes in `s`: after every definition with at least as many keys.
pub open spec fn insert_pos(s: Seq<ComboDefinition>, x: ComboDefinition) -> int
    decreases s.len(),
{
    if s.len() == 0 {
        0
    } else if arity(s.last()) >= arity(x) {
        s.len() as int
    } else {
        insert_pos(s.drop_last(), x)
    }
}

/// `s` sorted by descending number of keys, definitions with as many keys
/// kept in their order in `s`.
pub open spec fn by_arity(s: Seq<ComboDefinition>) -> Seq<ComboDefinition>
    decreases s.len(),
{
    if s.len() == 0 {
        Seq::empty()
    } else {
        let r = by_arity(s.drop_last());
        r.insert(insert_pos(r, s.last()), s.last())
    }
}

/// No definition has more keys than one before it.
pub open spec fn arity_sorted(s: Seq<ComboDefinition>) -> bool {
    forall|i: int, j: int| 0 <= i < j < s.len() ==> arity(#[trigger] s[i]) >= arity(#[trigger] s[j])
}

/// The definitions of `s` with exactly `k` keys, in their order in `s`.
pub open spec fn with_arity(s: Seq<ComboDefinition>, k: nat) -> Seq<ComboDefinition> {
    s.filter(arity_is(k))
}

pub open spec fn arity_is(k: nat) -> spec_fn(ComboDefinition) -> bool {
    |d: ComboDefinition| arity(d) == k
}

proof fn lemma_insert_pos(s: Seq<ComboDefinition>, x: ComboDefinition)
    requires
        arity_sorted(s),
    ensures
        0 <= insert_pos(s, x) <= s.len(),
        forall|i: int| 0 <= i < insert_pos(s, x) ==> arity(#[trigger] s[i]) >= arity(x),
        forall|i: int| insert_pos(s, x) <= i < s.len() ==> arity(#[trigger] s[i]) < arity(x),
    decreases s.len(),
{
    if s.len() > 0 {
        if arity(s.last()) >= arity(x) {
            assert forall|i: int| 0 <= i < s.len() implies arity(#[trigger] s[i]) >= arity(x) by {
                if i < s.len() - 1 {
                    assert(arity(s[i]) >= arity(s[s.len() - 1]));
                }
            }
        } else {
            let d = s.drop_last();
            assert(arity_sorted(d)) by {
                assert forall|i: int, j: int| 0 <= i < j < d.len() implies arity(#[trigger] d[i]) >= arity(#[trigger] d[j]) by {
                    assert(d[i] == s[i] && d[j] == s[j]);
                }
            }
            lemma_insert_pos(d, x);
            assert forall|i: int| 0 <= i < insert_pos(s, x) implies arity(#[trigger] s[i]) >= arity(x) by {
                assert(d[i] == s[i]);
            }
            assert forall|i: int| insert_pos(s, x) <= i < s.len() implies arity(#[trigger] s[i]) < arity(x) by {
                if i < s.len() - 1 {
                    assert(d[i] == s[i]);
                }
            }
        }
    }
}

proof fn lemma_filter_none(s: Seq<ComboDefinition>, k: nat)
    requires
        forall|i: int| 0 <= i < s.len() ==> arity(#[trigger] s[i]) != k,
    ensures
        with_arity(s, k) == Seq::<ComboDefinition>::empty(),
    decreases s.len(),
{
    reveal(Seq::filter);
    if s.len() > 0 {
        let d = s.drop_last();
        assert forall|i: int| 0 <= i < d.len() implies arity(#[trigger] d[i]) != k by {
            assert(d[i] == s[i]);
        }
        lemma_filter_none(d, k);
        assert(arity(s[s.len() - 1]) != k);
    }
}

/// Sorting by number of keys orders the definitions, keeps each one, and
/// keeps definitions with as many keys in their declared order.
pub proof fn lemma_by_arity(s: Seq<ComboDefinition>)
    ensures
        arity_sorted(by_arity(s)),
        by_arity(s).to_multiset() == s.to_multiset(),
        forall|k: nat| #[trigger] with_arity(by_arity(s), k) == with_arity(s, k),
    decreases s.len(),
{
    if s.len() > 0 {
        let d = s.drop_last();
        let x = s.last();
        lemma_by_arity(d);
        let r = by_arity(d);
        let p = insert_pos(r, x);
        lemma_insert_pos(r, x);
        let r2 = r.insert(p, x);
        assert(r2 == by_arity(s));
        assert forall|i: int, j: int| 0 <= i < j < r2.len() implies arity(#[trigger] r2[i]) >= arity(#[trigger] r2[j]) by {
            if j < p {
                assert(r2[i] == r[i] && r2[j] == r[j]);
            } else if j == p {
                assert(r2[i] == r[i]);
            } else if i < p {
                assert(r2[i] == r[i] && r2[j] == r[j - 1]);
            } else if i == p {
                assert(r2[j] == r[j - 1]);
            } else {
                assert(r2[i] == r[i - 1] && r2[j] == r[j - 1]);
            }
        }
        to_multiset_insert(r, p, x);
        assert(s == d.push(x));
        to_multiset_build(d, x);
        assert(r2.to_multiset() =~= r.to_multiset().insert(x));
        assert(s.to_multiset() =~= d.to_multiset().insert(x));
        assert forall|k: nat| #[trigger] with_arity(r2, k) == with_arity(s, k) by {
            let a = r.subrange(0, p);
            let b = r.subrange(p, r.len() as int);
            assert(r == a + b);
            assert(r2 == a + seq![x] + b);
            let pred = arity_is(k);
            Seq::filter_distributes_over_add(a, b, pred);
            Seq::filter_distributes_over_add(a + seq![x], b, pred);
            Seq::filter_distributes_over_add(a, seq![x], pred);
            reveal(Seq::filter);
            assert(seq![x].drop_last() =~= Seq::<ComboDefinition>::empty());
            assert(with_arity(Seq::<ComboDefinition>::empty(), k) =~= Seq::<ComboDefinition>::empty());
            assert(with_arity(r, k) == with_arity(d, k));
            if arity(x) == k {
                assert forall|i: int| 0 <= i < b.len() implies arity(#[trigger] b[i]) != k by {
                    assert(b[i] == r[p + i]);
                }
                lemma_filter_none(b, k);
                assert(with_arity(seq![x], k) =~= seq![x]);
                assert(with_arity(s, k) == with_arity(d, k).push(x));
                assert(with_arity(r2, k) =~= with_arity(a, k) + seq![x] + Seq::<ComboDefinition>::empty());
                assert(with_arity(r, k) =~= with_arity(a, k) + Seq::<ComboDefinition>::empty());
                assert(with_arity(r2, k) =~= with_arity(s, k));
            } else {
                assert(with_arity(seq![x], k) =~= Seq::<ComboDefinition>::empty());
                assert(with_arity(s, k) == with_arity(d, k));
                assert(with_arity(r2, k) =~= with_arity(a, k) + Seq::<ComboDefinition>::empty() + with_arity(b, k));
                assert(with_arity(r2, k) =~= with_arity(r, k));
            }
        }
    } else {
        assert(s =~= Seq::<ComboDefinition>::empty());
        assert(by_arity(s) =~= s);
    }
}

/// How many definitions can fire.
pub open spec fn ready_count(defs: Seq<ComboDefinition>, keys: Seq<ComboKey>, suppressed: Seq<u16>) -> nat
    decreases defs.len(),
{
    if defs.len() == 0 {
        0
    } else {
        ready_count(defs.drop_last(), keys, suppressed) + if can_fire(defs.last(), keys, suppressed) { 1nat } else { 0nat }
    }
}

proof fn lemma_ready_count_shrinks(defs: Seq<ComboDefinition>, keys: Seq<ComboKey>, s1: Seq<u16>, s2: Seq<u16>, d: int)
    requires
        forall|c: u16| s1.contains(c) ==> s2.contains(c),
        0 <= d < defs.len(),
        can_fire(defs[d], keys, s1),
        !can_fire(defs[d], keys, s2),
    ensures
        ready_count(defs, keys, s2) < ready_count(defs, keys, s1),
    decreases defs.len(),
{
    lemma_ready_count_mono(defs.drop_last(), keys, s1, s2);
    if d < defs.len() - 1 {
        assert(defs.drop_last()[d] == defs[d]);
        lemma_ready_count_shrinks(defs.drop_last(), keys, s1, s2, d);
    }
    if can_fire(defs.last(), keys, s2) {
        assert forall|t: int| 0 <= t < defs.last().keys@.len() implies !s1.contains(#[trigger] defs.last().keys@[t].0) by {
            assert(!s2.contains(defs.last().keys@[t].0));
        }
    }
}

proof fn lemma_ready_count_mono(defs: Seq<ComboDefinition>, keys: Seq<ComboKey>, s1: Seq<u16>, s2: Seq<u16>)
    requires
        forall|c: u16| s1.contains(c) ==> s2.contains(c),
    ensures
        ready_count(defs, keys, s2) <= ready_count(defs, keys, s1),
    decreases defs.len(),
{
    if defs.len() > 0 {
        lemma_ready_count_mono(defs.drop_last(), keys, s1, s2);
        if can_fire(defs.last(), keys, s2) {
            assert forall|t: int| 0 <= t < defs.last().keys@.len() implies !s1.contains(#[trigger] defs.last().keys@[t].0) by {
                assert(!s2.contains(defs.last().keys@[t].0));
            }
        }
    }
}

/// A fired combo stays latched exactly while one of its trigger keys is
/// still down: each active combo with a trigger down is kept, and every kept
/// combo has a trigger down.
pub proof fn lemma_latched_exactly_while_held(active: Seq<ActiveCombo>, defs: Seq<ComboDefinition>, keys: Seq<ComboKey>)
    ensures
        forall|i: int| 0 <= i < active.len() && latched(defs[active[i].id as int].keys@, keys)
            ==> still_latched(active, defs, keys).contains(#[trigger] active[i]),
        forall|k: int| 0 <= k < still_latched(active, defs, keys).len()
            ==> latched(defs[(#[trigger] still_latched(active, defs, keys)[k]).id as int].keys@, keys),
    decreases active.len(),
{
    if active.len() > 0 {
        let rest = active.drop_last();
        lemma_latched_exactly_while_held(rest, defs, keys);
        let prev = still_latched(rest, defs, keys);
        let a = active.last();
        assert forall|i: int| 0 <= i < active.len() && latched(defs[active[i].id as int].keys@, keys)
            implies still_latched(active, defs, keys).contains(#[trigger] active[i]) by {
            if i < active.len() - 1 {
                assert(rest[i] == active[i]);
                assert(prev.contains(rest[i]));
                let m = choose|m: int| 0 <= m < prev.len() && prev[m] == rest[i];
                if latched(defs[a.id as int].keys@, keys) {
                    assert(prev.push(a)[m] == active[i]);
                }
            } else {
                assert(still_latched(active, defs, keys) == prev.push(a));
                assert(prev.push(a)[prev.len() as int] == a);
            }
        }
        assert forall|k: int| 0 <= k < still_latched(active, defs, keys).len()
            implies latched(defs[(#[trigger] still_latched(active, defs, keys)[k]).id as int].keys@, keys) by {
            if latched(defs[a.id as int].keys@, keys) {
                if k < prev.len() {
                    assert(prev.push(a)[k] == prev[k]);
                }
            }
        }
    }
}

/// Active combos whose action is a macro fire once: upkeep of them yields
/// nothing, held or released.
pub proof fn lemma_macro_combos_silent(active: Seq<ActiveCombo>, defs: Seq<ComboDefinition>, keys: Seq<ComboKey>)
    requires
        forall|a: int| 0 <= a < active.len() ==> (#[trigger] active[a]).code is None,
    ensures
        active_results(active, defs, keys).len() == 0,
    decreases active.len(),
{
    if active.len() > 0 {
        assert forall|a: int| 0 <= a < active.drop_last().len() implies (#[trigger] active.drop_last()[a]).code is None by {
            assert(active.drop_last()[a] == active[a]);
        }
        lemma_macro_combos_silent(active.drop_last(), defs, keys);
        assert(active[active.len() - 1].code is None);
    }
}

impl ComboKey {
    pub fn new(code: u16, now: u64) -> (r: Self)
        ensures
            r == (ComboKey { code, pressed_at: now, released: false, hold: false }),
    {
        ComboKey { code, pressed_at: now, released: false, hold: false }
    }

    /// Once its chord window has closed, the key falls through on its own.
    pub fn get_key_result(&self, now: u64, threshold: u16) -> (r: Option<InputResult>)
        ensures
            window_closed(*self, now, threshold) ==> r == Some(solo_result(*self)),
            !window_closed(*self, now, threshold) ==> r is None,
    {
        if !self.window_closed(now, threshold) {
            return None;
        }
        if self.released {
            Some(InputResult::double(InputResult::Press(KeyCode(self.code)), InputResult::Release(KeyCode(self.code))))
        } else {
            Some(InputResult::Press(KeyCode(self.code)))
        }
    }

    pub fn window_closed(&self, now: u64, threshold: u16) -> (r: bool)
        ensures
            r == window_closed(*self, now, threshold),
    {
        now > self.pressed_at && now - self.pressed_at > threshold as u64
    }
}


/// Recognises chords of keys pressed together within a threshold.
#[derive(Debug)]
pub struct ComboManager {
    definitions: Vec<ComboDefinition>,
    pressed_keys: ComboKeyList,
    supressed_keys: CodeList,
    active_combos: ActiveComboList,
    config: DefaultComboConfig,
}

impl ComboManager {
    pub closed spec fn definitions(&self) -> Seq<ComboDefinition> {
        self.definitions@
    }

    pub closed spec fn pressed(&self) -> Seq<ComboKey> {
        listed_combo_keys(self.pressed_keys)
    }

    pub closed spec fn suppressed(&self) -> Seq<u16> {
        listed_codes(self.supressed_keys)
    }

    pub closed spec fn active(&self) -> Seq<ActiveCombo> {
        listed_active(self.active_combos)
    }

    pub closed spec fn threshold(&self) -> u16 {
        self.config.default_threshold
    }

    /// Every active combo names a definition.
    pub open spec fn wf(&self) -> bool {
        forall|a: int| 0 <= a < self.active().len() ==> #[trigger] self.active()[a].id < self.definitions().len()
    }

    /// The trigger keys of an active combo.
    pub open spec fn triggers(&self, a: ActiveCombo) -> Seq<KeyCode> {
        self.definitions()[a.id as int].keys@
    }

    /// The definitions are kept sorted by descending number of keys, those
    /// with as many keys in their declared order.
    pub fn new(combos: ComboConfig, config: DefaultComboConfig) -> (r: Self)
        ensures
            r.wf(),
            r.definitions() == by_arity(combos.0@),
            arity_sorted(r.definitions()),
            r.definitions().to_multiset() == combos.0@.to_multiset(),
            forall|k: nat| #[trigger] with_arity(r.definitions(), k) == with_arity(combos.0@, k),
            r.pressed().len() == 0,
            r.suppressed().len() == 0,
            r.active().len() == 0,
            r.threshold() == config.default_threshold,
    {
        let mut input = combos.0;
        let ghost orig = input@;
        let ghost n = orig.len();
        let mut out: Vec<ComboDefinition> = Vec::new();
        assert(orig.subrange(0, 0) =~= Seq::<ComboDefinition>::empty());
        assert(orig.subrange(0, n as int) =~= orig);
        while input.len() > 0
            invariant
                input@.len() <= n,
                input@ == orig.subrange(n - input@.len(), n as int),
                out@ == by_arity(orig.subrange(0, n - input@.len())),
                n == orig.len(),
            decreases input.len(),
        {
            let ghost done = n - input@.len();
            let x = input.remove(0);
            assert(x == orig[done]);
            assert(input@ =~= orig.subrange(n - input@.len(), n as int));
            let ghost pre = orig.subrange(0, done);
            let ghost next = orig.subrange(0, done + 1);
            assert(next.drop_last() =~= pre);
            assert(next.last() == x);
            let mut j: usize = out.len();
            assert(out@.subrange(0, j as int) =~= out@);
            while j > 0 && out[j - 1].keys.len() < x.keys.len()
                invariant
                    j <= out@.len(),
                    insert_pos(out@, x) == insert_pos(out@.subrange(0, j as int), x),
                decreases j,
            {
                assert(out@.subrange(0, j as int).drop_last() =~= out@.subrange(0, j - 1));
                j = j - 1;
            }
            assert(insert_pos(out@.subrange(0, j as int), x) == j);
            out.insert(j, x);
        }
        proof {
            lemma_by_arity(orig);
        }
        ComboManager {
            definitions: out,
            pressed_keys: combo_keys_new(),
            supressed_keys: codes_new(),
            active_combos: active_new(),
            config,
        }
    }

    fn is_combo_key(&self, code: u16) -> (r: bool)
        ensures
            r == in_some_combo(self.definitions(), code),
    {
        let mut d: usize = 0;
        while d < self.definitions.len()
            invariant
                d <= self.definitions@.len(),
                forall|e: int, t: int| 0 <= e < d && 0 <= t < self.definitions@[e].keys@.len()
                    ==> #[trigger] self.definitions@[e].keys@[t].0 != code,
            decreases self.definitions.len() - d,
        {
            let keys = &self.definitions[d].keys;
            let mut t: usize = 0;
            while t < keys.len()
                invariant
                    t <= keys@.len(),
                    d < self.definitions@.len(),
                    keys@ == self.definitions@[d as int].keys@,
                    forall|u: int| 0 <= u < t ==> #[trigger] keys@[u].0 != code,
                decreases keys.len() - t,
            {
                if keys[t].0 == code {
                    assert(self.definitions@[d as int].keys@[t as int].0 == code);
                    return true;
                }
                t = t + 1;
            }
            d = d + 1;
        }
        false
    }

    /// A press of a key that occurs in some combo is recorded and reported pending.
    pub fn handle_press(&mut self, code: u16, now: u64) -> (r: Option<InputResult>)
        requires
            old(self).wf(),
        ensures
            final(self).wf(),
            final(self).definitions() == old(self).definitions(),
            final(self).suppressed() == old(self).suppressed(),
            final(self).active() == old(self).active(),
            final(self).threshold() == old(self).threshold(),
            in_some_combo(old(self).definitions(), code) ==> r == Some(InputResult::Pending(KeyCode(code)))
                && final(self).pressed() == old(self).pressed().push(ComboKey { code, pressed_at: now, released: false, hold: false }),
            !in_some_combo(old(self).definitions(), code) ==> r is None && *final(self) == *old(self),
    {
        if self.is_combo_key(code) {
            combo_keys_push(&mut self.pressed_keys, ComboKey::new(code, now));
            Some(InputResult::Pending(KeyCode(code)))
        } else {
            None
        }
    }

    fn find_pressed(&self, code: u16) -> (r: Option<usize>)
        ensures
            r matches Some(j) ==> j < self.pressed().len() && self.pressed()[j as int].code == code
                && forall|k: int| 0 <= k < j ==> #[trigger] self.pressed()[k].code != code,
            r is None ==> forall|k: int| 0 <= k < self.pressed().len() ==> #[trigger] self.pressed()[k].code != code,
    {
        let items = combo_keys_items(&self.pressed_keys);
        let mut j: usize = 0;
        while j < items.len()
            invariant
                j <= items@.len(),
                items@ == self.pressed(),
                forall|k: int| 0 <= k < j ==> #[trigger] items@[k].code != code,
            decreases items.len() - j,
        {
            if items[j].code == code {
                return Some(j);
            }
            j = j + 1;
        }
        None
    }

    /// Auto-repeat of a recorded key is absorbed; past the threshold it marks
    /// the key as held.
    pub fn handle_hold(&mut self, code: u16, now: u64) -> (r: Option<InputResult>)
        requires
            old(self).wf(),
        ensures
            final(self).wf(),
            final(self).definitions() == old(self).definitions(),
            final(self).suppressed() == old(self).suppressed(),
            final(self).active() == old(self).active(),
            final(self).threshold() == old(self).threshold(),
            forall|j: int| #[trigger] first_record_at(old(self).pressed(), code, j)
                && window_closed(old(self).pressed()[j], now, old(self).threshold()) ==> r == Some(InputResult::Nothing)
                    && final(self).pressed() == old(self).pressed().update(j, ComboKey { hold: true, ..old(self).pressed()[j] }),
            !(exists|j: int| #[trigger] first_record_at(old(self).pressed(), code, j)
                && window_closed(old(self).pressed()[j], now, old(self).threshold())) ==> r is None && *final(self) == *old(self),
    {
        match self.find_pressed(code) {
            Some(j) => {
                let mut key = combo_keys_items(&self.pressed_keys)[j];
                if key.window_closed(now, self.config.default_threshold) {
                    key.hold = true;
                    combo_keys_set(&mut self.pressed_keys, j, key);
                    proof {
                        assert(first_record_at(old(self).pressed(), code, j as int));
                        assert forall|i: int| #[trigger] first_record_at(old(self).pressed(), code, i) implies i == j by {
                            if i < j {
                                assert(old(self).pressed()[i].code != code);
                            }
                            if i > j {
                                assert(old(self).pressed()[j as int].code != code);
                            }
                        }
                    }
                    Some(InputResult::Nothing)
                } else {
                    proof {
                        assert(first_record_at(old(self).pressed(), code, j as int));
                        assert forall|i: int| #[trigger] first_record_at(old(self).pressed(), code, i) implies i == j by {
                            if i < j {
                                assert(old(self).pressed()[i].code != code);
                            }
                            if i > j {
                                assert(old(self).pressed()[j as int].code != code);
                            }
                        }
                    }
                    None
                }
            },
            None => {
                assert forall|i: int| !#[trigger] first_record_at(old(self).pressed(), code, i) by {
                    if 0 <= i < old(self).pressed().len() {
                        assert(old(self).pressed()[i].code != code);
                    }
                }
                None
            },
        }
    }

    /// The release of a recorded key marks its first record released.
    pub fn handle_release(&mut self, code: u16) -> (r: Option<InputResult>)
        requires
            old(self).wf(),
        ensures
            final(self).wf(),
            final(self).definitions() == old(self).definitions(),
            final(self).suppressed() == old(self).suppressed(),
            final(self).active() == old(self).active(),
            final(self).threshold() == old(self).threshold(),
            forall|j: int| #[trigger] first_record_at(old(self).pressed(), code, j) ==> r == Some(InputResult::Nothing)
                && final(self).pressed() == old(self).pressed().update(j, ComboKey { released: true, ..old(self).pressed()[j] }),
            (exists|j: int| 0 <= j < old(self).pressed().len() && #[trigger] old(self).pressed()[j].code == code)
                ==> r == Some(InputResult::Nothing),
            !(exists|j: int| 0 <= j < old(self).pressed().len() && #[trigger] old(self).pressed()[j].code == code)
                ==> r is None && *final(self) == *old(self),
    {
        match self.find_pressed(code) {
            Some(j) => {
                let mut key = combo_keys_items(&self.pressed_keys)[j];
                key.released = true;
                combo_keys_set(&mut self.pressed_keys, j, key);
                proof {
                    assert forall|i: int| #[trigger] first_record_at(old(self).pressed(), code, i) implies i == j by {
                        if i < j {
                            assert(old(self).pressed()[i].code != code);
                        }
                        if i > j {
                            assert(old(self).pressed()[j as int].code != code);
                        }
                    }
                }
                Some(InputResult::Nothing)
            },
            None => None,
        }
    }

    /// Key resolution: a key that no active combo consumes and whose chord
    /// window has closed falls through on its own (a tap where it was
    /// released, else its press) and its record goes; released keys of
    /// active combos are dropped.
    pub fn process_key_results(&mut self, buffer: &mut InputBuffer, now: u64)
        requires
            old(buffer).wf(),
            old(self).wf(),
        ensures
            final(self).wf(),
            final(buffer).wf(),
            final(self).definitions() == old(self).definitions(),
            final(self).suppressed() == old(self).suppressed(),
            final(self).active() == old(self).active(),
            final(self).threshold() == old(self).threshold(),
            final(self).pressed() == key_kept(old(self).pressed(), old(self).suppressed(), now, old(self).threshold()),
            final(buffer).results() == push_all(
                old(buffer).results(),
                key_results(old(self).pressed(), old(self).suppressed(), now, old(self).threshold()),
                10,
            ),
            final(buffer).pending_seq() == old(buffer).pending_seq(),
            final(buffer).indices() == old(buffer).indices(),
            final(buffer).deferred() == old(buffer).deferred(),
    {
        let pressed = combo_keys_to_vec(&self.pressed_keys);
        let sup_v = codes_to_vec(&self.supressed_keys);
        let ghost keys = pressed@;
        let ghost sup = sup_v@;
        let ghost results0 = buffer.results();
        let threshold = self.config.default_threshold;
        let mut kept: Vec<ComboKey> = Vec::new();
        let mut i: usize = 0;
        while i < pressed.len()
            invariant
                i <= keys.len(),
                pressed@ == keys,
                sup_v@ == sup,
                self.pressed_keys == old(self).pressed_keys,
                self.supressed_keys == old(self).supressed_keys,
                self.definitions == old(self).definitions,
                self.active_combos == old(self).active_combos,
                self.config == old(self).config,
                threshold == self.config.default_threshold,
                buffer.wf(),
                buffer.results() == push_all(results0, key_results(keys.subrange(0, i as int), sup, now, threshold), 10),
                kept@ == key_kept(keys.subrange(0, i as int), sup, now, threshold),
                buffer.pending_seq() == old(buffer).pending_seq(),
                buffer.indices() == old(buffer).indices(),
                buffer.deferred() == old(buffer).deferred(),
            decreases keys.len() - i,
        {
            let key = pressed[i];
            let ghost pre = keys.subrange(0, i as int);
            let ghost next = keys.subrange(0, i + 1);
            assert(next.drop_last() =~= pre);
            assert(next.last() == key);
            if contains_code(&sup_v, key.code) {
                if !key.released {
                    kept.push(key);
                }
            } else {
                match key.get_key_result(now, threshold) {
                    Some(result) => {
                        buffer.push_result(result);
                        assert(key_results(next, sup, now, threshold).drop_last() =~= key_results(pre, sup, now, threshold));
                    },
                    None => {
                        kept.push(key);
                    },
                }
            }
            i = i + 1;
        }
        assert(keys.subrange(0, keys.len() as int) =~= keys);
        self.pressed_keys = combo_keys_from_vec(&kept);
    }

    /// `code` has a record that is not released (and, with `held`, is held).
    fn key_down(&self, code: u16, held: bool) -> (r: bool)
        ensures
            !held ==> r == is_down(self.pressed(), code),
            held ==> r == is_held(self.pressed(), code),
    {
        let items = combo_keys_items(&self.pressed_keys);
        let mut j: usize = 0;
        while j < items.len()
            invariant
                j <= items@.len(),
                items@ == self.pressed(),
                forall|k: int| 0 <= k < j ==> !(#[trigger] items@[k].code == code
                    && !items@[k].released && (!held || items@[k].hold)),
            decreases items.len() - j,
        {
            let k = items[j];
            if k.code == code && !k.released && (!held || k.hold) {
                return true;
            }
            j = j + 1;
        }
        false
    }

    /// Some trigger of definition `id` is down (and, with `held`, held).
    fn trigger_down(&self, id: usize, held: bool) -> (r: bool)
        requires
            id < self.definitions().len(),
        ensures
            !held ==> r == latched(self.definitions()[id as int].keys@, self.pressed()),
            held ==> r == repeating(self.definitions()[id as int].keys@, self.pressed()),
    {
        let keys = &self.definitions[id].keys;
        let mut t: usize = 0;
        while t < keys.len()
            invariant
                t <= keys@.len(),
                keys@ == self.definitions@[id as int].keys@,
                forall|u: int| 0 <= u < t ==> !held ==> !is_down(self.pressed(), #[trigger] keys@[u].0),
                forall|u: int| 0 <= u < t ==> held ==> !is_held(self.pressed(), #[trigger] keys@[u].0),
            decreases keys.len() - t,
        {
            if self.key_down(keys[t].0, held) {
                return true;
            }
            t = t + 1;
        }
        false
    }

    /// Active-combo maintenance: a combo stays latched while any of its
    /// trigger keys is down, repeating its code while a trigger is held;
    /// once none is down it releases its code and frees its triggers.
    pub fn process_active_combos(&mut self, buffer: &mut InputBuffer)
        requires
            old(buffer).wf(),
            old(self).wf(),
        ensures
            final(self).wf(),
            final(buffer).wf(),
            final(self).definitions() == old(self).definitions(),
            final(self).pressed() == old(self).pressed(),
            final(self).threshold() == old(self).threshold(),
            final(self).active() == still_latched(old(self).active(), old(self).definitions(), old(self).pressed()),
            final(buffer).results() == push_all(
                old(buffer).results(),
                active_results(old(self).active(), old(self).definitions(), old(self).pressed()),
                10,
            ),
            forall|c: u16| #[trigger] final(self).suppressed().contains(c) <==> old(self).suppressed().contains(c)
                && !unlatched_trigger(old(self).active(), old(self).definitions(), old(self).pressed(), c),
            final(buffer).pending_seq() == old(buffer).pending_seq(),
            final(buffer).indices() == old(buffer).indices(),
            final(buffer).deferred() == old(buffer).deferred(),
    {
        let act = active_to_vec(&self.active_combos);
        let ghost active = act@;
        let ghost defs = self.definitions@;
        let ghost keys = self.pressed();
        let ghost sup = self.suppressed();
        let ghost results0 = buffer.results();
        let mut kept: Vec<ActiveCombo> = Vec::new();
        let mut i: usize = 0;
        while i < act.len()
            invariant
                i <= active.len(),
                act@ == active,
                self.active() == active,
                self.definitions@ == defs,
                self.pressed() == keys,
                self.suppressed() == sup,
                self.config == old(self).config,
                self.wf(),
                forall|a: int| 0 <= a < kept@.len() ==> #[trigger] kept@[a].id < defs.len(),
                buffer.wf(),
                buffer.results() == push_all(results0, active_results(active.subrange(0, i as int), defs, keys), 10),
                kept@ == still_latched(active.subrange(0, i as int), defs, keys),
                buffer.pending_seq() == old(buffer).pending_seq(),
                buffer.indices() == old(buffer).indices(),
                buffer.deferred() == old(buffer).deferred(),
            decreases active.len() - i,
        {
            let combo = act[i];
            let ghost pre = active.subrange(0, i as int);
            let ghost next = active.subrange(0, i + 1);
            assert(next.drop_last() =~= pre);
            assert(next.last() == combo);
            assert(combo.id < defs.len());
            if self.trigger_down(combo.id, false) {
                if let Some(c) = combo.code {
                    if self.trigger_down(combo.id, true) {
                        buffer.push_result(InputResult::Hold(KeyCode(c)));
                        assert(active_results(next, defs, keys).drop_last() =~= active_results(pre, defs, keys));
                    }
                }
                kept.push(combo);
            } else {
                if let Some(c) = combo.code {
                    buffer.push_result(InputResult::Release(KeyCode(c)));
                    assert(active_results(next, defs, keys).drop_last() =~= active_results(pre, defs, keys));
                }
            }
            i = i + 1;
        }
        assert(active.subrange(0, active.len() as int) =~= active);

        let mut a: usize = 0;
        while a < act.len()
            invariant
                a <= active.len(),
                act@ == active,
                self.active() == active,
                self.definitions@ == defs,
                self.pressed() == keys,
                self.config == old(self).config,
                self.wf(),
                forall|c: u16| #[trigger] self.suppressed().contains(c) <==> sup.contains(c)
                    && !unlatched_trigger(active.subrange(0, a as int), defs, keys, c),
            decreases active.len() - a,
        {
            let combo = act[a];
            let ghost pre = active.subrange(0, a as int);
            let ghost next = active.subrange(0, a + 1);
            assert(combo.id < defs.len());
            if !self.trigger_down(combo.id, false) {
                let mut t: usize = 0;
                while t < self.definitions[combo.id].keys.len()
                    invariant
                        t <= defs[combo.id as int].keys@.len(),
                        combo.id < defs.len(),
                        combo == active[a as int],
                        !latched(defs[combo.id as int].keys@, keys),
                        self.active() == active,
                        self.definitions@ == defs,
                        self.pressed() == keys,
                        self.config == old(self).config,
                                self.wf(),
                        forall|c: u16| #[trigger] self.suppressed().contains(c) <==> sup.contains(c)
                            && !unlatched_trigger(pre, defs, keys, c)
                            && !(exists|u: int| 0 <= u < t && defs[combo.id as int].keys@[u] == KeyCode(c)),
                    decreases defs[combo.id as int].keys@.len() - t,
                {
                    let code = self.definitions[combo.id].keys[t].0;
                    let ghost s_before = self.suppressed();
                    codes_retain_other(&mut self.supressed_keys, code);
                    assert forall|c: u16| #[trigger] self.suppressed().contains(c) <==> sup.contains(c)
                        && !unlatched_trigger(pre, defs, keys, c)
                        && !(exists|u: int| 0 <= u < t + 1 && defs[combo.id as int].keys@[u] == KeyCode(c)) by {
                        assert(self.suppressed().contains(c) == (s_before.contains(c) && c != code));
                        if c == code {
                            assert(defs[combo.id as int].keys@[t as int] == KeyCode(c));
                        }
                        if exists|u: int| 0 <= u < t + 1 && defs[combo.id as int].keys@[u] == KeyCode(c) {
                            let u = choose|u: int| 0 <= u < t + 1 && defs[combo.id as int].keys@[u] == KeyCode(c);
                            if u == t {
                                assert(c == code);
                            } else {
                                assert(exists|v: int| 0 <= v < t && defs[combo.id as int].keys@[v] == KeyCode(c));
                            }
                        }
                    }
                    t = t + 1;
                }
                assert forall|c: u16| #[trigger] self.suppressed().contains(c) <==> sup.contains(c)
                    && !unlatched_trigger(next, defs, keys, c) by {
                    if unlatched_trigger(next, defs, keys, c) {
                        let (x, u) = choose|x: int, u: int|
                            0 <= x < next.len() && !latched(defs[next[x].id as int].keys@, keys)
                                && 0 <= u < defs[next[x].id as int].keys@.len() && #[trigger] defs[next[x].id as int].keys@[u]
                                == KeyCode(c);
                        if x < pre.len() {
                            assert(pre[x] == next[x]);
                        }
                    }
                    if unlatched_trigger(pre, defs, keys, c) {
                        let (x, u) = choose|x: int, u: int|
                            0 <= x < pre.len() && !latched(defs[pre[x].id as int].keys@, keys)
                                && 0 <= u < defs[pre[x].id as int].keys@.len() && #[trigger] defs[pre[x].id as int].keys@[u]
                                == KeyCode(c);
                        assert(next[x] == pre[x]);
                    }
                    if exists|u: int| 0 <= u < defs[combo.id as int].keys@.len() && defs[combo.id as int].keys@[u] == KeyCode(c) {
                        let u = choose|u: int| 0 <= u < defs[combo.id as int].keys@.len() && defs[combo.id as int].keys@[u] == KeyCode(c);
                        assert(next[a as int] == combo);
                        assert(defs[next[a as int].id as int].keys@[u] == KeyCode(c));
                    }
                }
            } else {
                assert forall|c: u16| #[trigger] self.suppressed().contains(c) <==> sup.contains(c)
                    && !unlatched_trigger(next, defs, keys, c) by {
                    if unlatched_trigger(next, defs, keys, c) {
                        let (x, u) = choose|x: int, u: int|
                            0 <= x < next.len() && !latched(defs[next[x].id as int].keys@, keys)
                                && 0 <= u < defs[next[x].id as int].keys@.len() && #[trigger] defs[next[x].id as int].keys@[u]
                                == KeyCode(c);
                        if x < pre.len() {
                            assert(pre[x] == next[x]);
                        }
                    }
                    if unlatched_trigger(pre, defs, keys, c) {
                        let (x, u) = choose|x: int, u: int|
                            0 <= x < pre.len() && !latched(defs[pre[x].id as int].keys@, keys)
                                && 0 <= u < defs[pre[x].id as int].keys@.len() && #[trigger] defs[pre[x].id as int].keys@[u]
                                == KeyCode(c);
                        assert(next[x] == pre[x]);
                    }
                }
            }
            a = a + 1;
        }
        assert(a == active.len());
        assert(active.subrange(0, a as int) =~= active);
        assert(sup == old(self).suppressed());
        assert forall|c: u16| #[trigger] self.suppressed().contains(c) <==> old(self).suppressed().contains(c)
            && !unlatched_trigger(old(self).active(), old(self).definitions(), old(self).pressed(), c) by {
            assert(self.suppressed().contains(c) <==> sup.contains(c) && !unlatched_trigger(active.subrange(0, a as int), defs, keys, c));
        }
        let ghost sup_end = self.suppressed();
        self.active_combos = active_from_vec(&kept);
        assert(self.suppressed() == sup_end);
    }

    fn is_ready(&self, d: usize) -> (r: bool)
        requires
            d < self.definitions().len(),
        ensures
            r == can_fire(self.definitions()[d as int], self.pressed(), self.suppressed()),
    {
        let sup_v = codes_to_vec(&self.supressed_keys);
        let items = combo_keys_items(&self.pressed_keys);
        let keys = &self.definitions[d].keys;
        if keys.len() == 0 {
            return false;
        }
        let mut t: usize = 0;
        while t < keys.len()
            invariant
                t <= keys@.len(),
                keys@ == self.definitions@[d as int].keys@,
                sup_v@ == self.suppressed(),
                items@ == self.pressed(),
                forall|u: int| 0 <= u < t ==> is_chord_ready(self.pressed(), #[trigger] keys@[u].0)
                    && !self.suppressed().contains(keys@[u].0),
            decreases keys.len() - t,
        {
            let code = keys[t].0;
            if contains_code(&sup_v, code) {
                return false;
            }
            let mut j: usize = 0;
            let mut found = false;
            while j < items.len()
                invariant
                    j <= items@.len(),
                    items@ == self.pressed(),
                    found ==> is_chord_ready(self.pressed(), code),
                    !found ==> forall|k: int| 0 <= k < j ==> !(#[trigger] self.pressed()[k].code == code
                        && !self.pressed()[k].hold),
                decreases items.len() - j,
            {
                let k = items[j];
                if k.code == code && !k.hold {
                    found = true;
                    assert(self.pressed()[j as int].code == code);
                }
                j = j + 1;
            }
            if !found {
                return false;
            }
            t = t + 1;
        }
        true
    }

    /// The definition to fire next: of those that can fire, the one with the
    /// most keys, the first declared among equals.
    fn best_ready(&self) -> (r: Option<usize>)
        ensures
            r matches Some(d) ==> d < self.definitions().len()
                && can_fire(self.definitions()[d as int], self.pressed(), self.suppressed())
                && forall|e: int| 0 <= e < self.definitions().len()
                    && can_fire(#[trigger] self.definitions()[e], self.pressed(), self.suppressed())
                    ==> self.definitions()[e].keys@.len() < self.definitions()[d as int].keys@.len()
                        || (self.definitions()[e].keys@.len() == self.definitions()[d as int].keys@.len() && d <= e),
            r is None ==> forall|e: int| 0 <= e < self.definitions().len()
                ==> !can_fire(#[trigger] self.definitions()[e], self.pressed(), self.suppressed()),
    {
        let mut best: Option<usize> = None;
        let mut d: usize = 0;
        while d < self.definitions.len()
            invariant
                d <= self.definitions@.len(),
                best matches Some(b) ==> b < d && can_fire(self.definitions@[b as int], self.pressed(), self.suppressed())
                    && forall|e: int| 0 <= e < d && can_fire(#[trigger] self.definitions@[e], self.pressed(), self.suppressed())
                        ==> self.definitions@[e].keys@.len() < self.definitions@[b as int].keys@.len()
                            || (self.definitions@[e].keys@.len() == self.definitions@[b as int].keys@.len() && b <= e),
                best is None ==> forall|e: int| 0 <= e < d ==> !can_fire(#[trigger] self.definitions@[e], self.pressed(), self.suppressed()),
            decreases self.definitions.len() - d,
        {
            if self.is_ready(d) {
                match best {
                    Some(b) => {
                        if self.definitions[d].keys.len() > self.definitions[b].keys.len() {
                            best = Some(d);
                        }
                    },
                    None => {
                        best = Some(d);
                    },
                }
            }
            d = d + 1;
        }
        best
    }

    /// Suppresses the trigger keys of definition `d` and clears their
    /// pending marks.
    fn suppress_triggers(&mut self, buffer: &mut InputBuffer, d: usize)
        requires
            old(self).wf(),
            old(buffer).wf(),
            d < old(self).definitions().len(),
        ensures
            final(self).wf(),
            final(buffer).wf(),
            final(self).definitions() == old(self).definitions(),
            final(self).pressed() == old(self).pressed(),
            final(self).active() == old(self).active(),
            final(self).threshold() == old(self).threshold(),
            forall|c: u16| #[trigger] final(self).suppressed().contains(c) <==> old(self).suppressed().contains(c)
                || exists|u: int| 0 <= u < old(self).definitions()[d as int].keys@.len()
                    && #[trigger] old(self).definitions()[d as int].keys@[u].0 == c,
            forall|c: KeyCode| #[trigger] final(buffer).is_pending(c) <==> old(buffer).is_pending(c)
                && !exists|u: int| 0 <= u < old(self).definitions()[d as int].keys@.len()
                    && #[trigger] old(self).definitions()[d as int].keys@[u].0 == c.0,
            final(buffer).results() == old(buffer).results(),
            final(buffer).indices() == old(buffer).indices(),
            final(buffer).deferred() == old(buffer).deferred(),
    {
        let ghost keys = self.definitions@[d as int].keys@;
        let mut t: usize = 0;
        while t < self.definitions[d].keys.len()
            invariant
                d < self.definitions@.len(),
                keys == self.definitions@[d as int].keys@,
                t <= keys.len(),
                self.wf(),
                buffer.wf(),
                self.definitions@ == old(self).definitions@,
                self.pressed() == old(self).pressed(),
                self.active() == old(self).active(),
                self.config == old(self).config,
                forall|c: u16| #[trigger] self.suppressed().contains(c) <==> old(self).suppressed().contains(c)
                    || exists|u: int| 0 <= u < t && #[trigger] keys[u].0 == c,
                forall|c: KeyCode| #[trigger] buffer.is_pending(c) <==> old(buffer).is_pending(c)
                    && !exists|u: int| 0 <= u < t && #[trigger] keys[u].0 == c.0,
                buffer.results() == old(buffer).results(),
                buffer.indices() == old(buffer).indices(),
                buffer.deferred() == old(buffer).deferred(),
            decreases keys.len() - t,
        {
            let key = self.definitions[d].keys[t];
            let ghost s_before = self.suppressed();
            let ghost b_before = *buffer;
            codes_push(&mut self.supressed_keys, key.0);
            assert(self.suppressed() == s_before.push(key.0));
            assert forall|c: u16| #[trigger] self.suppressed().contains(c) <==> old(self).suppressed().contains(c)
                || exists|u: int| 0 <= u < t + 1 && #[trigger] keys[u].0 == c by {
                if self.suppressed().contains(c) {
                    if c != key.0 {
                        let m = choose|m: int| 0 <= m < self.suppressed().len() && self.suppressed()[m] == c;
                        assert(m < s_before.len());
                        assert(s_before[m] == c);
                        assert(s_before.contains(c));
                        if exists|u: int| 0 <= u < t && #[trigger] keys[u].0 == c {
                            let u = choose|u: int| 0 <= u < t && #[trigger] keys[u].0 == c;
                            assert(0 <= u < t + 1 && keys[u].0 == c);
                        }
                    } else {
                        assert(keys[t as int].0 == c);
                    }
                }
                if old(self).suppressed().contains(c) {
                    assert(s_before.contains(c));
                    let m = choose|m: int| 0 <= m < s_before.len() && s_before[m] == c;
                    assert(self.suppressed()[m] == c);
                }
                if exists|u: int| 0 <= u < t + 1 && #[trigger] keys[u].0 == c {
                    let u = choose|u: int| 0 <= u < t + 1 && #[trigger] keys[u].0 == c;
                    if u == t {
                        assert(self.suppressed()[s_before.len() as int] == c);
                    } else {
                        assert(exists|v: int| 0 <= v < t && #[trigger] keys[v].0 == c);
                        assert(s_before.contains(c));
                        let m = choose|m: int| 0 <= m < s_before.len() && s_before[m] == c;
                        assert(self.suppressed()[m] == c);
                    }
                }
            }
            buffer.clear_pending_key(&key);
            assert forall|c: KeyCode| #[trigger] buffer.is_pending(c) <==> old(buffer).is_pending(c)
                && !exists|u: int| 0 <= u < t + 1 && #[trigger] keys[u].0 == c.0 by {
                assert(buffer.is_pending(c) <==> b_before.is_pending(c) && c != key);
                if c == key {
                    assert(keys[t as int].0 == c.0);
                }
                if exists|u: int| 0 <= u < t + 1 && #[trigger] keys[u].0 == c.0 {
                    let u = choose|u: int| 0 <= u < t + 1 && #[trigger] keys[u].0 == c.0;
                    if u == t {
                        assert(c == key);
                    } else {
                        assert(exists|v: int| 0 <= v < t && #[trigger] keys[v].0 == c.0);
                    }
                }
            }
            t = t + 1;
        }
    }

    /// Combo activation: while some definition can fire, the one with the
    /// most keys (first declared among equals) fires: its triggers are
    /// suppressed and their pending markers cleared, its code is pressed (or
    /// its macro queued), and it becomes active.
    #[verifier::rlimit(60)]
    pub fn process_combo_trigger(&mut self, buffer: &mut InputBuffer)
        requires
            old(buffer).wf(),
            old(self).wf(),
        ensures
            final(self).wf(),
            final(buffer).wf(),
            final(self).definitions() == old(self).definitions(),
            final(self).pressed() == old(self).pressed(),
            final(self).threshold() == old(self).threshold(),
            final(self).active().len() >= old(self).active().len(),
            final(self).active().subrange(0, old(self).active().len() as int) == old(self).active(),
            forall|a: int| old(self).active().len() <= a < final(self).active().len() ==> {
                let c = #[trigger] final(self).active()[a];
                &&& can_fire(old(self).definitions()[c.id as int], old(self).pressed(), old(self).suppressed())
                &&& c.code == match old(self).definitions()[c.id as int].action {
                    KeyAction::KeyCode(k) => Some(k.0),
                    KeyAction::Macro(_) => None,
                }
            },
            final(buffer).results() == push_all(
                old(buffer).results(),
                fire_results(
                    final(self).active().subrange(old(self).active().len() as int, final(self).active().len() as int),
                    old(self).definitions(),
                ),
                10,
            ),
            forall|d: int| 0 <= d < final(self).definitions().len()
                ==> !can_fire(#[trigger] final(self).definitions()[d], final(self).pressed(), final(self).suppressed()),
            forall|c: u16| #[trigger] final(self).suppressed().contains(c) <==> old(self).suppressed().contains(c)
                || fired_trigger(final(self).active().subrange(old(self).active().len() as int, final(self).active().len() as int), old(self).definitions(), c),
            forall|c: KeyCode| #[trigger] final(buffer).is_pending(c) <==> old(buffer).is_pending(c)
                && !fired_trigger(final(self).active().subrange(old(self).active().len() as int, final(self).active().len() as int), old(self).definitions(), c.0),
            fired_in_order(final(self).active().subrange(old(self).active().len() as int, final(self).active().len() as int), old(self).definitions()),
            final(self).active().len() > old(self).active().len() ==> forall|e: int| 0 <= e < old(self).definitions().len()
                && can_fire(#[trigger] old(self).definitions()[e], old(self).pressed(), old(self).suppressed())
                ==> e == final(self).active()[old(self).active().len() as int].id
                    || fires_before(old(self).definitions(), final(self).active()[old(self).active().len() as int].id as int, e),
            final(buffer).indices() == old(buffer).indices(),
            final(buffer).deferred() == old(buffer).deferred(),
    {
        let ghost n0 = self.active().len();
        let ghost results0 = buffer.results();
        let ghost sup0 = self.suppressed();
        loop
            invariant
                self.wf(),
                buffer.wf(),
                self.definitions@ == old(self).definitions@,
                self.pressed() == old(self).pressed(),
                self.config == old(self).config,
                self.active().len() >= n0,
                self.active().subrange(0, n0 as int) == old(self).active(),
                forall|a: int| n0 <= a < self.active().len() ==> {
                    let c = #[trigger] self.active()[a];
                    &&& can_fire(self.definitions@[c.id as int], self.pressed(), sup0)
                    &&& c.code == match self.definitions@[c.id as int].action {
                        KeyAction::KeyCode(k) => Some(k.0),
                        KeyAction::Macro(_) => None,
                    }
                },
                buffer.results() == push_all(
                    results0,
                    fire_results(self.active().subrange(n0 as int, self.active().len() as int), self.definitions@),
                    10,
                ),
                forall|c: u16| sup0.contains(c) ==> #[trigger] self.suppressed().contains(c),
                forall|c: u16| #[trigger] self.suppressed().contains(c) <==> sup0.contains(c)
                    || fired_trigger(self.active().subrange(n0 as int, self.active().len() as int), self.definitions@, c),
                forall|c: KeyCode| #[trigger] buffer.is_pending(c) <==> old(buffer).is_pending(c)
                    && !fired_trigger(self.active().subrange(n0 as int, self.active().len() as int), self.definitions@, c.0),
                fired_in_order(self.active().subrange(n0 as int, self.active().len() as int), self.definitions@),
                self.active().len() > n0 ==> forall|e: int| 0 <= e < self.definitions@.len()
                    && can_fire(#[trigger] self.definitions@[e], self.pressed(), self.suppressed())
                    ==> fires_before(self.definitions@, self.active().last().id as int, e),
                self.active().len() > n0 ==> forall|e: int| 0 <= e < self.definitions@.len()
                    && can_fire(#[trigger] self.definitions@[e], self.pressed(), sup0)
                    ==> e == self.active()[n0 as int].id || fires_before(self.definitions@, self.active()[n0 as int].id as int, e),
                buffer.indices() == old(buffer).indices(),
                buffer.deferred() == old(buffer).deferred(),
            ensures
                forall|e: int| 0 <= e < self.definitions@.len()
                    ==> !can_fire(#[trigger] self.definitions@[e], self.pressed(), self.suppressed()),
            decreases ready_count(self.definitions@, self.pressed(), self.suppressed()),
        {
            let d = match self.best_ready() {
                Some(d) => d,
                None => break,
            };
            let ghost sup_before = self.suppressed();
            let ghost pend_before = *buffer;
            let ghost fired_before = self.active().subrange(n0 as int, self.active().len() as int);
            self.suppress_triggers(buffer, d);
            proof {
                assert(!can_fire(self.definitions@[d as int], self.pressed(), self.suppressed())) by {
                    let k0 = self.definitions@[d as int].keys@[0].0;
                    assert(exists|u: int| 0 <= u < self.definitions@[d as int].keys@.len()
                        && #[trigger] self.definitions@[d as int].keys@[u].0 == k0);
                    assert(self.suppressed().contains(k0));
                }
                assert forall|c: u16| sup_before.contains(c) implies #[trigger] self.suppressed().contains(c) by {}
                assert forall|c: u16| sup_before.contains(c) implies #[trigger] self.suppressed().contains(c) by {}
                lemma_ready_count_shrinks(self.definitions@, self.pressed(), sup_before, self.suppressed(), d as int);
            }
            let code = match self.definitions[d].action {
                KeyAction::KeyCode(k) => Some(k.0),
                KeyAction::Macro(_) => None,
            };
            let result = match self.definitions[d].action {
                KeyAction::KeyCode(k) => InputResult::Press(k),
                KeyAction::Macro(m) => InputResult::Macro(m),
            };
            let ghost mid = *buffer;
            buffer.push_result(result);
            assert forall|c: KeyCode| #[trigger] buffer.is_pending(c) implies old(buffer).is_pending(c) by {
                assert(mid.is_pending(c));
            }
            let ghost act_before = self.active();
            active_push(&mut self.active_combos, ActiveCombo { id: d, code });
            proof {
                let fired = self.active().subrange(n0 as int, self.active().len() as int);
                assert(fired.drop_last() =~= fired_before);
                assert(fired.last() == ActiveCombo { id: d, code });
                assert(fire_results(fired, self.definitions@).drop_last() =~= fire_results(fired_before, self.definitions@));
                assert(fire_results(fired, self.definitions@).last() == result);
                assert(self.active().subrange(0, n0 as int) =~= act_before.subrange(0, n0 as int));
                assert forall|a: int| 0 <= a < self.active().len() implies #[trigger] self.active()[a].id < self.definitions@.len() by {
                    if a < act_before.len() {
                        assert(act_before[a] == self.active()[a]);
                    }
                }
                let fired_now = self.active().subrange(n0 as int, self.active().len() as int);
                let keys_d = self.definitions@[d as int].keys@;
                assert(fired_now =~= fired_before.push(ActiveCombo { id: d, code }));
                assert forall|c: u16| fired_trigger(fired_now, self.definitions@, c) <==> fired_trigger(fired_before, self.definitions@, c)
                    || exists|u: int| 0 <= u < keys_d.len() && #[trigger] keys_d[u].0 == c by {
                    if fired_trigger(fired_now, self.definitions@, c) {
                        let (a, u) = choose|a: int, u: int|
                            0 <= a < fired_now.len() && 0 <= u < self.definitions@[fired_now[a].id as int].keys@.len()
                                && #[trigger] self.definitions@[fired_now[a].id as int].keys@[u].0 == c;
                        if a < fired_before.len() {
                            assert(fired_before[a] == fired_now[a]);
                        } else {
                            assert(keys_d[u].0 == c);
                        }
                    }
                    if fired_trigger(fired_before, self.definitions@, c) {
                        let (a, u) = choose|a: int, u: int|
                            0 <= a < fired_before.len() && 0 <= u < self.definitions@[fired_before[a].id as int].keys@.len()
                                && #[trigger] self.definitions@[fired_before[a].id as int].keys@[u].0 == c;
                        assert(fired_now[a] == fired_before[a]);
                    }
                    if exists|u: int| 0 <= u < keys_d.len() && #[trigger] keys_d[u].0 == c {
                        let u = choose|u: int| 0 <= u < keys_d.len() && #[trigger] keys_d[u].0 == c;
                        let a = fired_before.len() as int;
                        assert(fired_now[a].id == d);
                        assert(self.definitions@[fired_now[a].id as int].keys@[u].0 == c);
                    }
                }
                assert forall|c: u16| #[trigger] self.suppressed().contains(c) <==> sup0.contains(c)
                    || fired_trigger(fired_now, self.definitions@, c) by {
                    assert(sup_before.contains(c) <==> sup0.contains(c) || fired_trigger(fired_before, self.definitions@, c));
                    assert(fired_trigger(fired_now, self.definitions@, c) <==> fired_trigger(fired_before, self.definitions@, c)
                        || exists|u: int| 0 <= u < keys_d.len() && #[trigger] keys_d[u].0 == c);
                }
                assert forall|c: KeyCode| #[trigger] buffer.is_pending(c) <==> old(buffer).is_pending(c)
                    && !fired_trigger(fired_now, self.definitions@, c.0) by {
                    assert(mid.is_pending(c) == buffer.is_pending(c));
                    assert(pend_before.is_pending(c) <==> old(buffer).is_pending(c)
                        && !fired_trigger(fired_before, self.definitions@, c.0));
                    assert(fired_trigger(fired_now, self.definitions@, c.0) <==> fired_trigger(fired_before, self.definitions@, c.0)
                        || exists|u: int| 0 <= u < keys_d.len() && #[trigger] keys_d[u].0 == c.0);
                }
                assert forall|k: int| 0 <= k < fired_now.len() - 1 implies fires_before(
                    self.definitions@, #[trigger] fired_now[k].id as int, fired_now[k + 1].id as int) by {
                    if k < fired_before.len() - 1 {
                        assert(fired_now[k] == fired_before[k] && fired_now[k + 1] == fired_before[k + 1]);
                    } else {
                        assert(fired_now[k] == fired_before.last());
                        assert(fired_now[k + 1].id == d);
                        assert(act_before.last() == fired_before.last());
                    }
                }
                assert forall|e: int| 0 <= e < self.definitions@.len()
                    && can_fire(#[trigger] self.definitions@[e], self.pressed(), self.suppressed())
                    implies fires_before(self.definitions@, self.active().last().id as int, e) by {
                    lemma_can_fire_fewer_suppressed(self.definitions@[e], self.pressed(), sup_before, self.suppressed());
                    assert(e != d);
                }
                if act_before.len() == n0 {
                    assert(self.active()[n0 as int].id == d);
                    assert(sup_before =~= sup_before);
                    assert forall|e: int| 0 <= e < self.definitions@.len()
                        && can_fire(#[trigger] self.definitions@[e], self.pressed(), sup0)
                        implies e == d || fires_before(self.definitions@, d as int, e) by {
                        assert forall|t: int| 0 <= t < self.definitions@[e].keys@.len()
                            implies !sup_before.contains(#[trigger] self.definitions@[e].keys@[t].0) by {
                            if sup_before.contains(self.definitions@[e].keys@[t].0) {
                                let c = self.definitions@[e].keys@[t].0;
                                if !sup0.contains(c) {
                                    assert(fired_trigger(fired_before, self.definitions@, c));
                                    let (a, u) = choose|a: int, u: int|
                                        0 <= a < fired_before.len() && 0 <= u < self.definitions@[fired_before[a].id as int].keys@.len()
                                            && #[trigger] self.definitions@[fired_before[a].id as int].keys@[u].0 == c;
                                }
                            }
                        }
                    }
                } else {
                    assert(self.active()[n0 as int] == act_before[n0 as int]);
                }
                assert forall|a: int| n0 <= a < self.active().len() implies {
                    let c = #[trigger] self.active()[a];
                    &&& can_fire(self.definitions@[c.id as int], self.pressed(), sup0)
                    &&& c.code == match self.definitions@[c.id as int].action {
                        KeyAction::KeyCode(k) => Some(k.0),
                        KeyAction::Macro(_) => None,
                    }
                } by {
                    if a < act_before.len() {
                        assert(act_before[a] == self.active()[a]);
                    } else {
                        let def = self.definitions@[d as int];
                        assert forall|u: int| 0 <= u < def.keys@.len() implies !sup0.contains(#[trigger] def.keys@[u].0) by {
                            assert(!sup_before.contains(def.keys@[u].0));
                        }
                    }
                }
            }
        }
        assert(forall|c: u16| sup0.contains(c) ==> #[trigger] self.suppressed().contains(c));
    }

    /// The combos that fired in a tick from `before` to `after`: the active
    /// entries after the ones that stayed latched.
    pub open spec fn fired_now(before: &Self, after: &Self) -> Seq<ActiveCombo> {
        let kept = still_latched(before.active(), before.definitions(), after.pressed()).len();
        after.active().subrange(kept as int, after.active().len() as int)
    }

    /// One tick: key resolution, then active-combo maintenance, then combo
    /// activation. Afterwards a combo that was active stays active exactly
    /// while one of its trigger keys is still down, and no definition is left
    /// that could fire.
    pub fn process(&mut self, buffer: &mut InputBuffer, now: u64)
        requires
            old(buffer).wf(),
            old(self).wf(),
        ensures
            final(self).wf(),
            final(buffer).wf(),
            final(self).definitions() == old(self).definitions(),
            final(self).threshold() == old(self).threshold(),
            old(self).definitions().len() == 0 ==> *final(self) == *old(self) && *final(buffer) == *old(buffer),
            old(self).definitions().len() > 0 ==> {
                &&& final(self).pressed() == key_kept(old(self).pressed(), old(self).suppressed(), now, old(self).threshold())
                &&& final(self).active().len() >= still_latched(old(self).active(), old(self).definitions(), final(self).pressed()).len()
                &&& final(self).active().subrange(
                    0,
                    still_latched(old(self).active(), old(self).definitions(), final(self).pressed()).len() as int,
                ) == still_latched(old(self).active(), old(self).definitions(), final(self).pressed())
                &&& forall|d: int| 0 <= d < final(self).definitions().len()
                    ==> !can_fire(#[trigger] final(self).definitions()[d], final(self).pressed(), final(self).suppressed())
                &&& final(buffer).results() == push_all(
                    push_all(
                        push_all(
                            old(buffer).results(),
                            key_results(old(self).pressed(), old(self).suppressed(), now, old(self).threshold()),
                            10,
                        ),
                        active_results(old(self).active(), old(self).definitions(), final(self).pressed()),
                        10,
                    ),
                    fire_results(Self::fired_now(old(self), final(self)), old(self).definitions()),
                    10,
                )
                &&& forall|c: KeyCode| #[trigger] final(buffer).is_pending(c) <==> old(buffer).is_pending(c)
                    && !fired_trigger(Self::fired_now(old(self), final(self)), old(self).definitions(), c.0)
                &&& forall|c: u16| #[trigger] final(self).suppressed().contains(c) <==> (old(self).suppressed().contains(c)
                    && !unlatched_trigger(old(self).active(), old(self).definitions(), final(self).pressed(), c))
                    || fired_trigger(Self::fired_now(old(self), final(self)), old(self).definitions(), c)
                &&& fired_in_order(Self::fired_now(old(self), final(self)), old(self).definitions())
                &&& forall|a: int| 0 <= a < Self::fired_now(old(self), final(self)).len() ==> could_fire_after_upkeep(
                    old(self).definitions()[(#[trigger] Self::fired_now(old(self), final(self))[a]).id as int],
                    final(self).pressed(),
                    old(self).suppressed(),
                    old(self).active(),
                    old(self).definitions(),
                )
                &&& final(buffer).indices() == old(buffer).indices()
                &&& final(buffer).deferred() == old(buffer).deferred()
            },
    {
        if self.definitions.len() == 0 {
            return;
        }
        self.process_key_results(buffer, now);
        self.process_active_combos(buffer);
        let ghost mid = *self;
        self.process_combo_trigger(buffer);
        proof {
            let fired = Self::fired_now(old(self), self);
            assert(fired =~= self.active().subrange(mid.active().len() as int, self.active().len() as int));
            assert forall|a: int| 0 <= a < fired.len() implies could_fire_after_upkeep(
                old(self).definitions()[(#[trigger] fired[a]).id as int],
                self.pressed(),
                old(self).suppressed(),
                old(self).active(),
                old(self).definitions(),
            ) by {
                let c = self.active()[mid.active().len() + a];
                assert(c == fired[a]);
                let def = old(self).definitions()[c.id as int];
                assert(can_fire(def, mid.pressed(), mid.suppressed()));
                assert forall|t: int| 0 <= t < def.keys@.len() implies !(old(self).suppressed().contains(#[trigger] def.keys@[t].0)
                    && !unlatched_trigger(old(self).active(), old(self).definitions(), self.pressed(), def.keys@[t].0)) by {
                    assert(!mid.suppressed().contains(def.keys@[t].0));
                }
            }
        }
    }
}

} // verus!
