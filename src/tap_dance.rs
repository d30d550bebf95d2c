use crate::buffer::{bounded_push, InputBuffer};
use crate::config::{find_entry, first_entry, DefaultTapDanceConfig, KeyAction, TapDanceConfig};
use crate::event::{tap_of, InputResult};
use crate::keycode::KeyCode;
use crate::lists::{
    codes_from_vec, codes_push, codes_to_vec, contains_code, listed_codes, listed_pressed, pressed_from_vec,
    pressed_items, pressed_new, pressed_push, pressed_set, pressed_to_vec, codes_retain_other, CodeList, PressedKeyList,
};
use vstd::prelude::*;

verus! {

/// A watched key whose tap-or-hold decision is open (or, once the hold has
/// won, whose release is still to come).
#[derive(Debug, Clone, Copy, PartialEq, Eq, Structural)]
pub struct PressedKey {
    pub code: u16,
    pub timeout: u16,
    /// Milliseconds on the engine's monotonic clock.
    pub pressed_at: u64,
    pub released: bool,
    pub tap: KeyAction,
    pub hold: KeyAction,
}

/// More than `timeout` milliseconds have passed since the press.
pub open spec fn timed_out(k: PressedKey, now: u64) -> bool {
    now as int - k.pressed_at as int > k.timeout as int
}

/// The decision for a watched key, given whether its timeout has passed.
pub open spec fn dance_result(k: PressedKey, timeout: bool) -> InputResult {
    if k.released && timeout {
        match k.hold {
            KeyAction::KeyCode(c) => InputResult::Release(c),
            KeyAction::Macro(_) => InputResult::Nothing,
        }
    } else if k.released {
        match k.tap {
            KeyAction::KeyCode(c) => tap_of(c),
            KeyAction::Macro(m) => InputResult::Macro(m),
        }
    } else if timeout {
        match k.hold {
            KeyAction::KeyCode(c) => InputResult::DoubleSequence(
                Box::new([InputResult::Press(c), InputResult::Hold(c)]),
            ),
            KeyAction::Macro(m) => InputResult::Macro(m),
        }
    } else {
        InputResult::Nothing
    }
}

/// The decision commits the key, so its pending marker goes: a hold, or a tap
/// whose output is not the watched code itself (that one clears the marker
/// with its own release).
pub open spec fn clears_pending(k: PressedKey, timeout: bool) -> bool {
    timeout || (k.released && k.tap != KeyAction::KeyCode(KeyCode(k.code)))
}

/// The results of one tick over `keys`, in order; suppressed codes give none.
pub open spec fn tick_results(keys: Seq<PressedKey>, suppressed: Seq<u16>, now: u64) -> Seq<InputResult>
    decreases keys.len(),
{
    if keys.len() == 0 {
        Seq::empty()
    } else {
        let prev = tick_results(keys.drop_last(), suppressed, now);
        let k = keys.last();
        let r = dance_result(k, timed_out(k, now));
        if suppressed.contains(k.code) || r == InputResult::Nothing {
            prev
        } else {
            prev.push(r)
        }
    }
}

/// The records that stay after one tick: suppressed ones and unreleased ones.
pub open spec fn tick_kept(keys: Seq<PressedKey>, suppressed: Seq<u16>) -> Seq<PressedKey>
    decreases keys.len(),
{
    if keys.len() == 0 {
        Seq::empty()
    } else {
        let prev = tick_kept(keys.drop_last(), suppressed);
        let k = keys.last();
        if suppressed.contains(k.code) || !k.released {
            prev.push(k)
        } else {
            prev
        }
    }
}

/// The codes whose hold wins in this tick.
pub open spec fn tick_suppressed(keys: Seq<PressedKey>, suppressed: Seq<u16>, now: u64) -> Seq<u16>
    decreases keys.len(),
{
    if keys.len() == 0 {
        Seq::empty()
    } else {
        let prev = tick_suppressed(keys.drop_last(), suppressed, now);
        let k = keys.last();
        if !suppressed.contains(k.code) && !k.released && timed_out(k, now) {
            prev.push(k.code)
        } else {
            prev
        }
    }
}

/// A record in `keys` for `c` that is not suppressed and whose decision clears its marker.
pub open spec fn tick_clears(keys: Seq<PressedKey>, suppressed: Seq<u16>, now: u64, c: KeyCode) -> bool {
    exists|j: int|
        0 <= j < keys.len() && #[trigger] keys[j].code == c.0 && !suppressed.contains(c.0)
            && clears_pending(keys[j], timed_out(keys[j], now))
}

/// `items` queued one by one into a queue of capacity `cap`.
pub open spec fn push_all(s: Seq<InputResult>, items: Seq<InputResult>, cap: nat) -> Seq<InputResult>
    decreases items.len(),
{
    if items.len() == 0 {
        s
    } else {
        bounded_push(push_all(s, items.drop_last(), cap), items.last(), cap)
    }
}

/// A watched key whose code is suppressed (its hold has already fired, a
/// macro included) yields nothing more until it is released.
pub proof fn lemma_suppressed_keys_silent(keys: Seq<PressedKey>, suppressed: Seq<u16>, now: u64)
    requires
        forall|j: int| 0 <= j < keys.len() ==> suppressed.contains(#[trigger] keys[j].code),
    ensures
        tick_results(keys, suppressed, now).len() == 0,
    decreases keys.len(),
{
    if keys.len() > 0 {
        assert forall|j: int| 0 <= j < keys.drop_last().len() implies suppressed.contains(#[trigger] keys.drop_last()[j].code) by {
            assert(keys.drop_last()[j] == keys[j]);
        }
        lemma_suppressed_keys_silent(keys.drop_last(), suppressed, now);
        assert(suppressed.contains(keys[keys.len() - 1].code));
    }
}

impl PressedKey {
    pub fn new(code: u16, config: &TapDanceConfig, default_timeout: u16, now: u64) -> (r: Self)
        ensures
            r == (PressedKey {
                code,
                timeout: match config.timeout {
                    Some(t) => t,
                    None => default_timeout,
                },
                pressed_at: now,
                released: false,
                tap: config.tap,
                hold: config.hold,
            }),
    {
        PressedKey {
            code,
            timeout: match config.timeout {
                Some(t) => t,
                None => default_timeout,
            },
            pressed_at: now,
            released: false,
            tap: config.tap,
            hold: config.hold,
        }
    }

    pub fn reached_timeout(&self, now: u64) -> (r: bool)
        ensures
            r == timed_out(*self, now),
    {
        now > self.pressed_at && now - self.pressed_at > self.timeout as u64
    }

    /// Released and timed out: the release half of a committed hold; released
    /// in time: a tap; timed out while held: a hold; otherwise: nothing yet.
    pub fn get_dance_result(&self, timeout: bool) -> (r: InputResult)
        ensures
            r == dance_result(*self, timeout),
    {
        if self.released && timeout {
            match self.hold {
                KeyAction::KeyCode(c) => InputResult::Release(c),
                KeyAction::Macro(_) => InputResult::Nothing,
            }
        } else if self.released {
            match self.tap {
                KeyAction::KeyCode(c) => InputResult::double(InputResult::Press(c), InputResult::Release(c)),
                KeyAction::Macro(m) => InputResult::Macro(m),
            }
        } else if timeout {
            match self.hold {
                KeyAction::KeyCode(c) => InputResult::double(InputResult::Press(c), InputResult::Hold(c)),
                KeyAction::Macro(m) => InputResult::Macro(m),
            }
        } else {
            InputResult::Nothing
        }
    }
}


/// `j` is the first record of `code`.
pub open spec fn first_pressed_at(keys: Seq<PressedKey>, code: u16, j: int) -> bool {
    0 <= j < keys.len() && keys[j].code == code && forall|i: int| 0 <= i < j ==> #[trigger] keys[i].code != code
}

/// Per-key dual-role (tap versus hold) decisions.
#[derive(Debug)]
pub struct TapDanceManager {
    tap_dances: Vec<(KeyCode, TapDanceConfig)>,
    pressed_keys: PressedKeyList,
    supressed_keys: CodeList,
    config: DefaultTapDanceConfig,
}

impl TapDanceManager {
    pub closed spec fn table(&self) -> Seq<(KeyCode, TapDanceConfig)> {
        self.tap_dances@
    }

    pub closed spec fn pressed(&self) -> Seq<PressedKey> {
        listed_pressed(self.pressed_keys)
    }

    pub closed spec fn suppressed(&self) -> Seq<u16> {
        listed_codes(self.supressed_keys)
    }

    pub closed spec fn default_timeout(&self) -> u16 {
        self.config.default_timeout
    }

    pub fn new(tap_dances: Vec<(KeyCode, TapDanceConfig)>, config: DefaultTapDanceConfig) -> (r: Self)
        ensures
            r.table() == tap_dances@,
            r.pressed().len() == 0,
            r.suppressed().len() == 0,
            r.default_timeout() == config.default_timeout,
    {
        TapDanceManager { tap_dances, pressed_keys: pressed_new(), supressed_keys: crate::lists::codes_new(), config }
    }

    /// A press of a configured key is recorded and reported pending.
    pub fn handle_press(&mut self, code: u16, now: u64) -> (r: Option<InputResult>)
        ensures
            final(self).table() == old(self).table(),
            final(self).default_timeout() == old(self).default_timeout(),
            final(self).suppressed() == old(self).suppressed(),
            first_entry(old(self).table(), code) is None ==> r is None && *final(self) == *old(self),
            first_entry(old(self).table(), code) matches Some(cfg) ==> r == Some(InputResult::Pending(KeyCode(code)))
                && final(self).pressed() == old(self).pressed().push(PressedKey {
                    code,
                    timeout: match cfg.timeout {
                        Some(t) => t,
                        None => old(self).default_timeout(),
                    },
                    pressed_at: now,
                    released: false,
                    tap: cfg.tap,
                    hold: cfg.hold,
                }),
    {
        match find_entry(&self.tap_dances, code) {
            Some(cfg) => {
                let key = PressedKey::new(code, &cfg, self.config.default_timeout, now);
                pressed_push(&mut self.pressed_keys, key);
                Some(InputResult::Pending(KeyCode(code)))
            },
            None => None,
        }
    }

    /// Auto-repeat of a configured key is absorbed while it is watched.
    pub fn handle_hold(&mut self, code: u16) -> (r: Option<InputResult>)
        ensures
            *final(self) == *old(self),
            r == (if first_entry(old(self).table(), code) is Some { Some(InputResult::Nothing) } else { None }),
    {
        match find_entry(&self.tap_dances, code) {
            Some(_) => Some(InputResult::Nothing),
            None => None,
        }
    }

    /// The release of a watched key marks its record released and lifts its
    /// suppression.
    pub fn handle_release(&mut self, code: u16) -> (r: Option<InputResult>)
        ensures
            final(self).table() == old(self).table(),
            final(self).default_timeout() == old(self).default_timeout(),
            !final(self).suppressed().contains(code),
            forall|c: u16| c != code ==> (final(self).suppressed().contains(c) <==> old(self).suppressed().contains(c)),
            (exists|j: int| 0 <= j < old(self).pressed().len() && #[trigger] old(self).pressed()[j].code == code)
                ==> r == Some(InputResult::Nothing),
            !(exists|j: int| 0 <= j < old(self).pressed().len() && #[trigger] old(self).pressed()[j].code == code)
                ==> r is None && final(self).pressed() == old(self).pressed(),
            forall|j: int| #[trigger] first_pressed_at(old(self).pressed(), code, j)
                ==> final(self).pressed() == old(self).pressed().update(j, PressedKey { released: true, ..old(self).pressed()[j] }),
    {
        codes_retain_other(&mut self.supressed_keys, code);
        let ghost sup_after = self.suppressed();
        assert(sup_after.contains(code) == (old(self).suppressed().contains(code) && code != code));
        assert forall|c: u16| c != code implies (sup_after.contains(c) <==> old(self).suppressed().contains(c)) by {
            assert(sup_after.contains(c) == (old(self).suppressed().contains(c) && c != code));
        }
        let items = pressed_items(&self.pressed_keys);
        let mut j: usize = 0;
        while j < items.len()
            invariant
                j <= items@.len(),
                items@ == old(self).pressed(),
                self.pressed() == old(self).pressed(),
                self.suppressed() == sup_after,
                !sup_after.contains(code),
                forall|c: u16| c != code ==> (sup_after.contains(c) <==> old(self).suppressed().contains(c)),
                self.tap_dances == old(self).tap_dances,
                self.config == old(self).config,
                forall|k: int| 0 <= k < j ==> #[trigger] items@[k].code != code,
            decreases items.len() - j,
        {
            if items[j].code == code {
                let mut key = items[j];
                key.released = true;
                proof {
                    assert forall|i: int| #[trigger] first_pressed_at(old(self).pressed(), code, i) implies i == j by {
                        if i < j {
                            assert(old(self).pressed()[i].code != code);
                        }
                        if i > j {
                            assert(old(self).pressed()[j as int].code != code);
                        }
                    }
                }
                pressed_set(&mut self.pressed_keys, j, key);
                return Some(InputResult::Nothing);
            }
            j = j + 1;
        }
        None
    }

    /// One tick: every watched key that is not suppressed is decided against
    /// the clock. Results are queued on `buffer` in record order; a hold that
    /// wins suppresses its code until the key is released; released records
    /// are dropped; committed decisions clear their pending marker.
    pub fn process(&mut self, buffer: &mut InputBuffer, now: u64)
        requires
            old(buffer).wf(),
        ensures
            final(buffer).wf(),
            final(self).table() == old(self).table(),
            final(self).default_timeout() == old(self).default_timeout(),
            final(buffer).results() == push_all(
                old(buffer).results(),
                tick_results(old(self).pressed(), old(self).suppressed(), now),
                10,
            ),
            final(self).pressed() == tick_kept(old(self).pressed(), old(self).suppressed()),
            final(self).suppressed() == old(self).suppressed() + tick_suppressed(
                old(self).pressed(),
                old(self).suppressed(),
                now,
            ),
            forall|c: KeyCode| #[trigger] final(buffer).is_pending(c) <==> old(buffer).is_pending(c)
                && !tick_clears(old(self).pressed(), old(self).suppressed(), now, c),
            final(buffer).indices() == old(buffer).indices(),
            final(buffer).deferred() == old(buffer).deferred(),
    {
        let pressed = pressed_to_vec(&self.pressed_keys);
        let sup_v = codes_to_vec(&self.supressed_keys);
        let ghost keys = pressed@;
        let ghost sup = sup_v@;
        let ghost results0 = buffer.results();
        let mut kept: Vec<PressedKey> = Vec::new();
        let mut newly: Vec<u16> = Vec::new();
        let mut i: usize = 0;
        while i < pressed.len()
            invariant
                i <= keys.len(),
                pressed@ == keys,
                sup_v@ == sup,
                self.pressed_keys == old(self).pressed_keys,
                self.supressed_keys == old(self).supressed_keys,
                self.tap_dances == old(self).tap_dances,
                self.config == old(self).config,
                buffer.wf(),
                buffer.results() == push_all(results0, tick_results(keys.subrange(0, i as int), sup, now), 10),
                kept@ == tick_kept(keys.subrange(0, i as int), sup),
                newly@ == tick_suppressed(keys.subrange(0, i as int), sup, now),
                forall|c: KeyCode| #[trigger] buffer.is_pending(c) <==> old(buffer).is_pending(c)
                    && !tick_clears(keys.subrange(0, i as int), sup, now, c),
                buffer.indices() == old(buffer).indices(),
                buffer.deferred() == old(buffer).deferred(),
            decreases keys.len() - i,
        {
            let st = pressed[i];
            let ghost pre = keys.subrange(0, i as int);
            let ghost next = keys.subrange(0, i + 1);
            assert(next.drop_last() =~= pre);
            assert(next.last() == st);
            let ghost pending0 = buffer;
            if contains_code(&sup_v, st.code) {
                kept.push(st);
                assert forall|c: KeyCode| #[trigger] buffer.is_pending(c) <==> old(buffer).is_pending(c)
                    && !tick_clears(next, sup, now, c) by {
                    if tick_clears(next, sup, now, c) {
                        let j = choose|j: int| 0 <= j < next.len() && #[trigger] next[j].code == c.0
                            && !sup.contains(c.0) && clears_pending(next[j], timed_out(next[j], now));
                        if j < pre.len() {
                            assert(pre[j] == next[j]);
                        }
                    }
                    if tick_clears(pre, sup, now, c) {
                        let j = choose|j: int| 0 <= j < pre.len() && #[trigger] pre[j].code == c.0
                            && !sup.contains(c.0) && clears_pending(pre[j], timed_out(pre[j], now));
                        assert(next[j] == pre[j]);
                    }
                }
            } else {
                let timeout = st.reached_timeout(now);
                let result = st.get_dance_result(timeout);
                let clears = timeout || (st.released && st.tap != KeyAction::KeyCode(KeyCode(st.code)));
                if clears {
                    buffer.clear_pending_key(&KeyCode(st.code));
                }
                assert forall|c: KeyCode| #[trigger] buffer.is_pending(c) <==> old(buffer).is_pending(c)
                    && !tick_clears(next, sup, now, c) by {
                    if tick_clears(next, sup, now, c) {
                        let j = choose|j: int| 0 <= j < next.len() && #[trigger] next[j].code == c.0
                            && !sup.contains(c.0) && clears_pending(next[j], timed_out(next[j], now));
                        if j < pre.len() {
                            assert(pre[j] == next[j]);
                        }
                    }
                    if tick_clears(pre, sup, now, c) {
                        let j = choose|j: int| 0 <= j < pre.len() && #[trigger] pre[j].code == c.0
                            && !sup.contains(c.0) && clears_pending(pre[j], timed_out(pre[j], now));
                        assert(next[j] == pre[j]);
                    }
                    assert(clears_pending(next[i as int], timed_out(next[i as int], now)) == clears);
                    if clears && c.0 == st.code {
                        assert(next[i as int].code == c.0);
                    }
                }
                if !st.released {
                    kept.push(st);
                    if timeout {
                        newly.push(st.code);
                    }
                }
                let is_nothing = match result {
                    InputResult::Nothing => true,
                    _ => false,
                };
                if !is_nothing {
                    let ghost mid = *buffer;
                    buffer.push_result(result);
                    assert forall|c: KeyCode| #[trigger] buffer.is_pending(c) <==> old(buffer).is_pending(c)
                        && !tick_clears(next, sup, now, c) by {
                        assert(mid.is_pending(c) == buffer.is_pending(c));
                    }
                    let ghost items = tick_results(next, sup, now);
                    assert(items.drop_last() =~= tick_results(pre, sup, now));
                }
            }
            i = i + 1;
        }
        assert(keys.subrange(0, keys.len() as int) =~= keys);
        self.pressed_keys = pressed_from_vec(&kept);
        let mut k: usize = 0;
        while k < newly.len()
            invariant
                k <= newly@.len(),
                self.suppressed() == sup + newly@.subrange(0, k as int),
                self.pressed() == tick_kept(keys, sup),
                self.tap_dances == old(self).tap_dances,
                self.config == old(self).config,
            decreases newly.len() - k,
        {
            codes_push(&mut self.supressed_keys, newly[k]);
            assert(sup + newly@.subrange(0, k + 1) =~= (sup + newly@.subrange(0, k as int)).push(newly@[k as int]));
            k = k + 1;
        }
        assert(newly@.subrange(0, newly@.len() as int) =~= newly@);
    }
}

} // verus!
