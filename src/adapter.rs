use crate::buffer::{add_pending, bounded_push, InputBuffer};
use crate::lists::other_than;
use crate::combo::{
    active_results, fire_results, fired_trigger, first_record_at, in_some_combo, key_results, window_closed, ComboManager,
};
use crate::config::{
    first_entry, DefaultConfig, EventMacro, GeneralConfig, KeyAction, KeyboardConfig, LayerDefinition, LayerModifierKind, Macro,
    MacroId,
};
use crate::event::{tap_of, EngineError, InputResult};
use crate::input::{
    command_to_input, string_results, string_to_input, unicode_results, unicode_to_input,
};
use crate::keycode::{
    is_custom_code, is_shifted_code, KeyCode, KeyEvent, KeyEventKind, KEY_LEFTSHIFT,
    SHIFTED_KEYCODE_START,
};
use crate::layer::{definition_of, layered_action, topmost_oneshot, LayerItem, LayerManager};
use crate::mapping::{mapped_action, MappingManager};
use crate::proxy::EventProxy;
use crate::tap_dance::{push_all, tick_clears, tick_results, TapDanceManager};
use vstd::prelude::*;

verus! {

/// The events the sink receives for a resolved key transition: a shifted
/// pseudo-code presses and holds shift around its physical key.
pub open spec fn emit_events(code: KeyCode, kind: KeyEventKind) -> Seq<KeyEvent> {
    if is_shifted_code(code.0) {
        let p = KeyCode((code.0 - SHIFTED_KEYCODE_START) as u16);
        let shift = KeyCode(KEY_LEFTSHIFT);
        match kind {
            KeyEventKind::Press => seq![
                KeyEvent { code: shift, kind: KeyEventKind::Press },
                KeyEvent { code: shift, kind: KeyEventKind::Hold },
                KeyEvent { code: p, kind: KeyEventKind::Press },
            ],
            KeyEventKind::Hold => seq![KeyEvent { code: p, kind: KeyEventKind::Hold }],
            KeyEventKind::Release => seq![
                KeyEvent { code: p, kind: KeyEventKind::Release },
                KeyEvent { code: shift, kind: KeyEventKind::Release },
            ],
        }
    } else {
        seq![KeyEvent { code, kind }]
    }
}

/// Tapping a shifted pseudo-code emits shift pressed and held, its physical
/// key pressed and released, then shift released.
pub proof fn lemma_shifted_tap(s: KeyCode)
    requires
        is_shifted_code(s.0),
    ensures
        emit_events(s, KeyEventKind::Press) + emit_events(s, KeyEventKind::Release) == seq![
            KeyEvent { code: KeyCode(KEY_LEFTSHIFT), kind: KeyEventKind::Press },
            KeyEvent { code: KeyCode(KEY_LEFTSHIFT), kind: KeyEventKind::Hold },
            KeyEvent { code: KeyCode((s.0 - SHIFTED_KEYCODE_START) as u16), kind: KeyEventKind::Press },
            KeyEvent { code: KeyCode((s.0 - SHIFTED_KEYCODE_START) as u16), kind: KeyEventKind::Release },
            KeyEvent { code: KeyCode(KEY_LEFTSHIFT), kind: KeyEventKind::Release },
        ],
{
    assert(emit_events(s, KeyEventKind::Press) + emit_events(s, KeyEventKind::Release) =~= seq![
        KeyEvent { code: KeyCode(KEY_LEFTSHIFT), kind: KeyEventKind::Press },
        KeyEvent { code: KeyCode(KEY_LEFTSHIFT), kind: KeyEventKind::Hold },
        KeyEvent { code: KeyCode((s.0 - SHIFTED_KEYCODE_START) as u16), kind: KeyEventKind::Press },
        KeyEvent { code: KeyCode((s.0 - SHIFTED_KEYCODE_START) as u16), kind: KeyEventKind::Release },
        KeyEvent { code: KeyCode(KEY_LEFTSHIFT), kind: KeyEventKind::Release },
    ]);
}

proof fn lemma_extends_append(a: Seq<KeyEvent>, b: Seq<KeyEvent>, c: Seq<KeyEvent>)
    requires
        extends(a, b),
    ensures
        extends(a, b + c),
{
    assert forall|i: int| 0 <= i < a.len() implies #[trigger] (b + c)[i] == a[i] by {
        assert((b + c)[i] == b[i]);
    }
}

proof fn lemma_extends_trans(a: Seq<KeyEvent>, b: Seq<KeyEvent>, c: Seq<KeyEvent>)
    requires
        extends(a, b),
        extends(b, c),
    ensures
        extends(a, c),
{
    assert forall|i: int| 0 <= i < a.len() implies #[trigger] c[i] == a[i] by {
        assert(c[i] == b[i]);
    }
}

proof fn lemma_extends_prepend(c: Seq<KeyEvent>, a: Seq<KeyEvent>, b: Seq<KeyEvent>)
    requires
        extends(a, b),
    ensures
        extends(c + a, c + b),
{
    assert forall|i: int| 0 <= i < (c + a).len() implies #[trigger] (c + b)[i] == (c + a)[i] by {
        if i >= c.len() {
            assert(b[i - c.len()] == a[i - c.len()]);
        }
    }
}

proof fn lemma_extends_refl(a: Seq<KeyEvent>)
    ensures
        extends(a, a),
{
}

/// Every press in `s` is followed later in `s` by a release of the same code.
pub open spec fn presses_released(s: Seq<KeyEvent>) -> bool {
    forall|i: int| 0 <= i < s.len() && #[trigger] s[i].kind == KeyEventKind::Press ==> exists|j: int|
        i < j < s.len() && s[j].code == s[i].code && s[j].kind == KeyEventKind::Release
}

/// What the sink receives for a press and then a release of the same
/// resolved code releases everything it presses.
pub proof fn lemma_press_release_balanced(k: KeyCode)
    ensures
        presses_released(emit_events(k, KeyEventKind::Press) + emit_events(k, KeyEventKind::Release)),
{
    let s = emit_events(k, KeyEventKind::Press) + emit_events(k, KeyEventKind::Release);
    if is_shifted_code(k.0) {
        assert forall|i: int| 0 <= i < s.len() && #[trigger] s[i].kind == KeyEventKind::Press implies exists|j: int|
            i < j < s.len() && s[j].code == s[i].code && s[j].kind == KeyEventKind::Release by {
            if i == 0 {
                assert(s[4].code == s[0].code);
            } else {
                assert(i == 2);
                assert(s[3].code == s[2].code);
            }
        }
    } else {
        assert forall|i: int| 0 <= i < s.len() && #[trigger] s[i].kind == KeyEventKind::Press implies exists|j: int|
            i < j < s.len() && s[j].code == s[i].code && s[j].kind == KeyEventKind::Release by {
            assert(i == 0);
            assert(s[1].code == s[0].code);
        }
    }
}

/// When the base table leaves key `x` as it is and layer `def` is on top of
/// the stack, pressing `x` dispatches the layer's own entry for `x` where it
/// has one, and otherwise what the layers below give (the base action where
/// no layer is below).
pub proof fn lemma_layer_map_composition(
    table: Seq<(KeyCode, KeyAction)>,
    defs: Seq<LayerDefinition>,
    below: Seq<LayerItem>,
    top: LayerItem,
    def: LayerDefinition,
    x: KeyCode,
)
    requires
        definition_of(defs, top.modifier) == Some(def),
        mapped_action(table, x.0) == KeyAction::KeyCode(x),
    ensures
        first_entry(def.keys@, x.0) matches Some(a) ==> layered_action(defs, below.push(top), mapped_action(table, x.0)) == a,
        first_entry(def.keys@, x.0) is None ==> layered_action(defs, below.push(top), mapped_action(table, x.0))
            == layered_action(defs, below, mapped_action(table, x.0)),
        below.len() == 0 && first_entry(def.keys@, x.0) is None
            ==> layered_action(defs, below.push(top), mapped_action(table, x.0)) == mapped_action(table, x.0),
{
    crate::layer::lemma_layer_composition(defs, below, top, def, KeyAction::KeyCode(x), x);
}

/// What one step of a macro expands to, for the steps that read nothing
/// from the environment.
pub open spec fn event_results(e: EventMacro, delay: u16) -> Option<Seq<InputResult>> {
    match e {
        EventMacro::Tap(c) => Some(seq![tap_of(c)]),
        EventMacro::Press { press } => Some(seq![InputResult::Press(press)]),
        EventMacro::Hold { hold } => Some(seq![InputResult::Hold(hold)]),
        EventMacro::Release { release } => Some(seq![InputResult::Release(release)]),
        EventMacro::Delay { delay: ms } => Some(seq![InputResult::Delay(ms)]),
        EventMacro::String { string } => string_results(string@),
        EventMacro::Unicode { unicode } => unicode_results(unicode@, delay),
        EventMacro::Env { .. } => None,
        EventMacro::Shell { .. } => None,
    }
}

pub open spec fn reads_environment(e: EventMacro) -> bool {
    e is Env || e is Shell
}

/// The expansion of the steps `es` in order, where none reads the environment.
pub open spec fn steps_results(es: Seq<EventMacro>, delay: u16) -> Option<Seq<InputResult>>
    decreases es.len(),
{
    if es.len() == 0 {
        Some(Seq::empty())
    } else {
        match (steps_results(es.drop_last(), delay), event_results(es.last(), delay)) {
            (Some(a), Some(b)) => Some(a + b),
            _ => None,
        }
    }
}

/// The steps of a macro, in order.
pub open spec fn macro_steps(m: Macro) -> Seq<EventMacro> {
    match m {
        Macro::Single(e) => seq![e],
        Macro::Sequence(es) => es@,
    }
}

/// Some step of the macro reads the environment.
pub open spec fn macro_reads_environment(m: Macro) -> bool {
    exists|i: int| 0 <= i < macro_steps(m).len() && reads_environment(#[trigger] macro_steps(m)[i])
}

proof fn lemma_steps_prefix(es: Seq<EventMacro>, delay: u16, n: int)
    requires
        0 <= n <= es.len(),
        steps_results(es, delay) is Some,
    ensures
        steps_results(es.subrange(0, n), delay) is Some,
    decreases es.len() - n,
{
    if n < es.len() {
        assert(es.subrange(0, n + 1).drop_last() =~= es.subrange(0, n));
        lemma_steps_prefix(es, delay, n + 1);
    } else {
        assert(es.subrange(0, n) =~= es);
    }
}

/// The key results of an environment variable's value: none set is an error.
pub fn env_to_input(value: Option<&str>) -> (r: Result<Vec<InputResult>, EngineError>)
    ensures
        value is None ==> r == Err::<Vec<InputResult>, EngineError>(EngineError::MissingVariable),
        value is Some ==> (string_results(value->Some_0@) matches Some(v) ==> (r matches Ok(w) && w@ == v)),
        value is Some && string_results(value->Some_0@) is None ==> r matches Err(EngineError::InvalidCharacter(_)),
{
    match value {
        Some(text) => string_to_input(text),
        None => Err(EngineError::MissingVariable),
    }
}

/// Appends the expansion of one macro step.
fn expand_event<P: EventProxy>(e: &EventMacro, proxy: &mut P, delay: u16, out: &mut Vec<InputResult>) -> (r: Result<(), EngineError>)
    ensures
        !reads_environment(*e) ==> (event_results(*e, delay) matches Some(v) ==> (r is Ok && final(out)@ == old(out)@ + v)),
        !reads_environment(*e) ==> (event_results(*e, delay) is None ==> r matches Err(EngineError::InvalidCharacter(_))),
{
    match e {
        EventMacro::Tap(c) => {
            out.push(InputResult::double(InputResult::Press(*c), InputResult::Release(*c)));
            assert(out@ =~= old(out)@ + seq![tap_of(*c)]);
            Ok(())
        },
        EventMacro::Press { press } => {
            out.push(InputResult::Press(*press));
            assert(out@ =~= old(out)@ + seq![InputResult::Press(*press)]);
            Ok(())
        },
        EventMacro::Hold { hold } => {
            out.push(InputResult::Hold(*hold));
            assert(out@ =~= old(out)@ + seq![InputResult::Hold(*hold)]);
            Ok(())
        },
        EventMacro::Release { release } => {
            out.push(InputResult::Release(*release));
            assert(out@ =~= old(out)@ + seq![InputResult::Release(*release)]);
            Ok(())
        },
        EventMacro::Delay { delay: ms } => {
            out.push(InputResult::Delay(*ms));
            assert(out@ =~= old(out)@ + seq![InputResult::Delay(*ms)]);
            Ok(())
        },
        EventMacro::String { string } => {
            let v = string_to_input(string.as_str())?;
            append_results(out, v);
            Ok(())
        },
        EventMacro::Unicode { unicode } => {
            let v = unicode_to_input(unicode.as_str(), delay)?;
            append_results(out, v);
            Ok(())
        },
        EventMacro::Env { env } => {
            let value = proxy.read_env(env.as_str());
            let v = match &value {
                Some(text) => env_to_input(Some(text.as_str()))?,
                None => env_to_input(None)?,
            };
            append_results(out, v);
            Ok(())
        },
        EventMacro::Shell { shell, trim } => {
            let text = proxy.run_shell(shell.as_str())?;
            let v = command_to_input(text.as_str(), *trim)?;
            append_results(out, v);
            Ok(())
        },
    }
}

fn append_results(out: &mut Vec<InputResult>, v: Vec<InputResult>)
    ensures
        final(out)@ == old(out)@ + v@,
{
    let mut v = v;
    let ghost all = v@;
    let mut rest: Vec<InputResult> = Vec::new();
    while v.len() > 0
        invariant
            all == v@ + rest@,
        decreases v.len(),
    {
        let x = v.pop().unwrap();
        let ghost r0 = rest@;
        rest.insert(0, x);
        assert(rest@ =~= seq![x] + r0);
        assert(all =~= v@ + rest@);
    }
    assert(rest@ =~= all);
    let ghost base = out@;
    while rest.len() > 0
        invariant
            out@ + rest@ == base + all,
        decreases rest.len(),
    {
        let x = rest.remove(0);
        out.push(x);
        assert(out@ + rest@ =~= base + all);
    }
    assert(out@ =~= base + all);
}

/// The key transformation engine for one keyboard: remaps, layers,
/// tap-dance keys, combos and macros between a source of key events and
/// the synthetic sink of an `EventProxy`.
pub struct KeyAdapter<P: EventProxy> {
    proxy: P,
    buffer: InputBuffer,
    config: GeneralConfig,
    macros: Vec<Macro>,
    mapping_manager: MappingManager,
    combo_manager: ComboManager,
    tap_dance_manager: TapDanceManager,
    layer_manager: LayerManager,
    now: u64,
    emitted: Ghost<Seq<KeyEvent>>,
    tick_buffer: Ghost<InputBuffer>,
    tick_combos: Ghost<ComboManager>,
}

/// `b` begins with `a`.
pub open spec fn extends(a: Seq<KeyEvent>, b: Seq<KeyEvent>) -> bool {
    a.len() <= b.len() && forall|i: int| 0 <= i < a.len() ==> #[trigger] b[i] == a[i]
}


impl<P: EventProxy> KeyAdapter<P> {
    /// Every key event handed to the sink so far, in order.
    pub closed spec fn emitted(&self) -> Seq<KeyEvent> {
        self.emitted@
    }

    /// What the timed managers' tick from `before` at time `now` left: the
    /// results they queued after those already waiting, the pending marks
    /// their decisions cleared, and the deferred queue untouched.
    pub open spec fn ticked(&self, before: &Self, now: u64) -> bool {
        let taps = tick_results(before.tap_dances().pressed(), before.tap_dances().suppressed(), now);
        let defs = before.combos().definitions();
        let fired = ComboManager::fired_now(&before.combos(), &self.tick_combo_state());
        &&& defs.len() == 0 ==> self.tick_staging().results() == push_all(before.staging().results(), taps, 10)
        &&& defs.len() > 0 ==> self.tick_staging().results() == push_all(
            push_all(
                push_all(
                    push_all(before.staging().results(), taps, 10),
                    key_results(before.combos().pressed(), before.combos().suppressed(), now, before.combos().threshold()),
                    10,
                ),
                active_results(before.combos().active(), defs, self.tick_combo_state().pressed()),
                10,
            ),
            fire_results(fired, defs),
            10,
        )
        &&& forall|c: KeyCode| #[trigger] self.tick_staging().is_pending(c) <==> before.staging().is_pending(c)
            && !tick_clears(before.tap_dances().pressed(), before.tap_dances().suppressed(), now, c)
            && !(defs.len() > 0 && fired_trigger(fired, defs, c.0))
        &&& self.tick_staging().deferred() == before.staging().deferred()
    }

    /// The staging area as the last tick of the timed managers left it.
    pub closed spec fn tick_staging(&self) -> InputBuffer {
        self.tick_buffer@
    }

    /// The combo manager as the last tick left it.
    pub closed spec fn tick_combo_state(&self) -> ComboManager {
        self.tick_combos@
    }

    pub closed spec fn general(&self) -> GeneralConfig {
        self.config
    }

    pub closed spec fn staging(&self) -> InputBuffer {
        self.buffer
    }

    pub closed spec fn mapping(&self) -> MappingManager {
        self.mapping_manager
    }

    pub closed spec fn layers(&self) -> LayerManager {
        self.layer_manager
    }

    pub closed spec fn tap_dances(&self) -> TapDanceManager {
        self.tap_dance_manager
    }

    pub closed spec fn combos(&self) -> ComboManager {
        self.combo_manager
    }

    pub closed spec fn macro_table(&self) -> Seq<Macro> {
        self.macros@
    }

    pub closed spec fn clock(&self) -> u64 {
        self.now
    }

    /// The staging queues stay bounded, and no custom code has reached the sink.
    pub closed spec fn wf(&self) -> bool {
        &&& self.buffer.wf()
        &&& self.combo_manager.wf()
        &&& forall|i: int| 0 <= i < self.emitted@.len() ==> !is_custom_code(#[trigger] self.emitted@[i].code.0)
    }

    /// The configuration is the same in `next`.
    pub open spec fn same_config(&self, next: &Self) -> bool {
        &&& next.general() == self.general()
        &&& next.mapping() == self.mapping()
        &&& next.macro_table() == self.macro_table()
        &&& next.layers().definitions() == self.layers().definitions()
        &&& next.tap_dances().table() == self.tap_dances().table()
        &&& next.combos().definitions() == self.combos().definitions()
    }

    /// What a dispatch step leaves alone, and that the sink's stream only grows.
    pub open spec fn keeps(&self, next: &Self) -> bool {
        &&& self.same_config(next)
        &&& next.clock() == self.clock()
        &&& next.staging().results() == self.staging().results()
        &&& extends(self.emitted(), next.emitted())
        &&& next.tick_staging() == self.tick_staging()
        &&& next.tick_combo_state() == self.tick_combo_state()
    }

    /// No custom code ever reaches the sink: every event handed to it so far
    /// has a code below the custom range.
    pub proof fn lemma_no_custom_code_emitted(&self)
        requires
            self.wf(),
        ensures
            forall|i: int| 0 <= i < self.emitted().len() ==> !is_custom_code(#[trigger] self.emitted()[i].code.0),
    {
    }

    /// The combo manager takes auto-repeat of `c` at time `now`: its first
    /// record of `c` is past the chord threshold.
    pub open spec fn combo_absorbs_hold(&self, c: u16, now: u64) -> bool {
        exists|j: int| #[trigger] first_record_at(self.combos().pressed(), c, j)
            && window_closed(self.combos().pressed()[j], now, self.combos().threshold())
    }

    /// The managers and the staging area are as they were.
    pub open spec fn same_state(&self, next: &Self) -> bool {
        &&& next.layers() == self.layers()
        &&& next.tap_dances() == self.tap_dances()
        &&& next.combos() == self.combos()
        &&& next.staging() == self.staging()
    }

    /// No tap-dance, combo or layer takes a press of `c`.
    pub open spec fn unclaimed(&self, c: u16) -> bool {
        &&& first_entry(self.tap_dances().table(), c) is None
        &&& !in_some_combo(self.combos().definitions(), c)
        &&& definition_of(self.layers().definitions(), c) is None
    }

    /// A release of `c` is nobody's business: no tap-dance or combo watches
    /// `c`, it is no layer modifier, and no one-shot layer waits for a key.
    pub open spec fn releases_plainly(&self, c: u16) -> bool {
        &&& !(exists|j: int| 0 <= j < self.tap_dances().pressed().len() && #[trigger] self.tap_dances().pressed()[j].code == c)
        &&& !(exists|j: int| 0 <= j < self.combos().pressed().len() && #[trigger] self.combos().pressed()[j].code == c)
        &&& definition_of(self.layers().definitions(), c) is None
        &&& topmost_oneshot(self.layers().definitions(), self.layers().stack()) is None
    }

    /// `code` resolves to a key code that goes to the sink as it is.
    pub open spec fn resolves_plainly(&self, code: u16) -> bool {
        self.resolve(code) is KeyCode && !is_custom_code(self.resolve(code)->KeyCode_0.0)
    }

    /// The transition of plainly resolving `c` as the sink receives it.
    pub open spec fn plain_emit(&self, c: KeyCode, kind: KeyEventKind) -> Seq<KeyEvent> {
        emit_events(self.resolve(c.0)->KeyCode_0, kind)
    }

    /// What flushing the deferred keys `dq` as taps emits, where each
    /// resolves plainly.
    pub open spec fn flush_events(&self, dq: Seq<KeyCode>) -> Option<Seq<KeyEvent>>
        decreases dq.len(),
    {
        if dq.len() == 0 {
            Some(Seq::empty())
        } else {
            match self.flush_events(dq.drop_last()) {
                Some(e) => if self.resolves_plainly(dq.last().0) {
                    Some(e + self.plain_emit(dq.last(), KeyEventKind::Press) + self.plain_emit(dq.last(), KeyEventKind::Release))
                } else {
                    None
                },
                None => None,
            }
        }
    }

    /// The release of pending code `c`, handled at depth `depth`: its mark
    /// goes, the release is emitted, and once no mark is left the deferred
    /// keys are flushed in order as taps. Gives the pending set, the
    /// deferred queue and the events emitted; none where a code involved
    /// does not resolve plainly.
    pub open spec fn pending_release(&self, pend: Seq<KeyCode>, dq: Seq<KeyCode>, c: KeyCode, depth: int)
        -> Option<(Seq<KeyCode>, Seq<KeyCode>, Seq<KeyEvent>)>
    {
        let rest = pend.filter(other_than(c));
        let released = self.plain_emit(c, KeyEventKind::Release);
        if !self.resolves_plainly(c.0) {
            None
        } else if rest.len() > 0 {
            Some((rest, dq, released))
        } else if depth + 1 > self.general().maximum_lookup_depth as int {
            Some((rest, Seq::empty(), released))
        } else {
            match self.flush_events(dq) {
                Some(f) => Some((rest, Seq::empty(), released + f)),
                None => None,
            }
        }
    }

    /// Dispatching a result other than a pair or a macro at depth `depth`
    /// (within the limit), from pending set `pend` and deferred queue `dq`.
    pub open spec fn plain_simple(&self, pend: Seq<KeyCode>, dq: Seq<KeyCode>, r: InputResult, depth: int)
        -> Option<(Seq<KeyCode>, Seq<KeyCode>, Seq<KeyEvent>)>
    {
        match r {
            InputResult::Nothing => Some((pend, dq, Seq::empty())),
            InputResult::Delay(_) => Some((pend, dq, Seq::empty())),
            InputResult::Pending(c) => Some((add_pending(pend, c), dq, Seq::empty())),
            InputResult::Press(c) => if pend.len() > 0 && !pend.contains(c) {
                Some((pend, bounded_push(dq, c, 4), Seq::empty()))
            } else if self.resolves_plainly(c.0) {
                Some((pend, dq, self.plain_emit(c, KeyEventKind::Press)))
            } else {
                None
            },
            InputResult::Hold(c) => if self.resolves_plainly(c.0) {
                Some((pend, dq, self.plain_emit(c, KeyEventKind::Hold)))
            } else {
                None
            },
            InputResult::Release(c) => if !self.resolves_plainly(c.0) {
                None
            } else if pend.contains(c) {
                self.pending_release(pend, dq, c, depth + 1)
            } else {
                Some((pend, dq, self.plain_emit(c, KeyEventKind::Release)))
            },
            _ => None,
        }
    }

    /// Dispatching `r` at depth `depth`: beyond the limit nothing happens; a
    /// pair dispatches its halves one level deeper. Gives the pending set, the
    /// deferred queue and the events emitted, where every code involved
    /// resolves plainly; none otherwise.
    pub open spec fn plain_result(&self, pend: Seq<KeyCode>, dq: Seq<KeyCode>, r: InputResult, depth: int)
        -> Option<(Seq<KeyCode>, Seq<KeyCode>, Seq<KeyEvent>)>
    {
        let max = self.general().maximum_lookup_depth as int;
        if depth > max {
            Some((pend, dq, Seq::empty()))
        } else {
            match r {
                InputResult::DoubleSequence(pair) => if depth + 1 > max {
                    Some((pend, dq, Seq::empty()))
                } else {
                    match self.plain_simple(pend, dq, pair[0], depth + 1) {
                        Some((p1, q1, e1)) => match self.plain_simple(p1, q1, pair[1], depth + 1) {
                            Some((p2, q2, e2)) => Some((p2, q2, e1 + e2)),
                            None => None,
                        },
                        None => None,
                    }
                },
                _ => self.plain_simple(pend, dq, r, depth),
            }
        }
    }

    proof fn lemma_flush_prefix(&self, dq: Seq<KeyCode>, n: int)
        requires
            0 <= n <= dq.len(),
            self.flush_events(dq) is Some,
        ensures
            self.flush_events(dq.subrange(0, n)) is Some,
            n > 0 ==> self.resolves_plainly(dq[n - 1].0),
            extends(self.flush_events(dq.subrange(0, n))->Some_0, self.flush_events(dq)->Some_0),
        decreases dq.len() - n,
    {
        if n < dq.len() {
            assert(dq.subrange(0, n + 1).drop_last() =~= dq.subrange(0, n));
            self.lemma_flush_prefix(dq, n + 1);
            assert(dq.subrange(0, n + 1).last() == dq[n]);
            let f0 = self.flush_events(dq.subrange(0, n))->Some_0;
            let f1 = self.flush_events(dq.subrange(0, n + 1))->Some_0;
            let x = dq[n];
            assert(f1 == f0 + self.plain_emit(x, KeyEventKind::Press) + self.plain_emit(x, KeyEventKind::Release));
            lemma_extends_refl(f0);
            lemma_extends_append(f0, f0, self.plain_emit(x, KeyEventKind::Press) + self.plain_emit(x, KeyEventKind::Release));
            assert(f0 + (self.plain_emit(x, KeyEventKind::Press) + self.plain_emit(x, KeyEventKind::Release)) =~= f1);
            lemma_extends_trans(f0, f1, self.flush_events(dq)->Some_0);
        } else {
            assert(dq.subrange(0, n) =~= dq);
            if n > 0 {
                assert(dq.last() == dq[n - 1]);
            }
        }
    }

    proof fn lemma_flush_same(&self, other: &Self, dq: Seq<KeyCode>)
        requires
            other.mapping() == self.mapping(),
            other.layers() == self.layers(),
        ensures
            other.flush_events(dq) == self.flush_events(dq),
        decreases dq.len(),
    {
        if dq.len() > 0 {
            self.lemma_flush_same(other, dq.drop_last());
        }
    }

    /// Dispatching the results `rs` in order, each at depth `depth`.
    pub open spec fn plain_seq(&self, pend: Seq<KeyCode>, dq: Seq<KeyCode>, rs: Seq<InputResult>, depth: int)
        -> Option<(Seq<KeyCode>, Seq<KeyCode>, Seq<KeyEvent>)>
        decreases rs.len(),
    {
        if rs.len() == 0 {
            Some((pend, dq, Seq::empty()))
        } else {
            match self.plain_seq(pend, dq, rs.drop_last(), depth) {
                Some((p, q, e)) => match self.plain_result(p, q, rs.last(), depth) {
                    Some((p2, q2, e2)) => Some((p2, q2, e + e2)),
                    None => None,
                },
                None => None,
            }
        }
    }

    proof fn lemma_plain_simple_same(&self, other: &Self, pend: Seq<KeyCode>, dq: Seq<KeyCode>, r: InputResult, depth: int)
        requires
            other.mapping() == self.mapping(),
            other.layers() == self.layers(),
            other.general() == self.general(),
        ensures
            other.plain_simple(pend, dq, r, depth) == self.plain_simple(pend, dq, r, depth),
    {
        self.lemma_flush_same(other, dq);
        assert(forall|x: u16| #[trigger] other.resolve(x) == self.resolve(x));
    }

    proof fn lemma_plain_result_same(&self, other: &Self, pend: Seq<KeyCode>, dq: Seq<KeyCode>, r: InputResult, depth: int)
        requires
            other.mapping() == self.mapping(),
            other.layers() == self.layers(),
            other.general() == self.general(),
        ensures
            other.plain_result(pend, dq, r, depth) == self.plain_result(pend, dq, r, depth),
    {
        self.lemma_plain_simple_same(other, pend, dq, r, depth);
        if let InputResult::DoubleSequence(pair) = r {
            self.lemma_plain_simple_same(other, pend, dq, pair[0], depth + 1);
            if let Some(m1) = self.plain_simple(pend, dq, pair[0], depth + 1) {
                self.lemma_plain_simple_same(other, m1.0, m1.1, pair[1], depth + 1);
            }
        }
    }

    proof fn lemma_plain_seq_same(&self, other: &Self, pend: Seq<KeyCode>, dq: Seq<KeyCode>, rs: Seq<InputResult>, depth: int)
        requires
            other.mapping() == self.mapping(),
            other.layers() == self.layers(),
            other.general() == self.general(),
        ensures
            other.plain_seq(pend, dq, rs, depth) == self.plain_seq(pend, dq, rs, depth),
        decreases rs.len(),
    {
        if rs.len() > 0 {
            self.lemma_plain_seq_same(other, pend, dq, rs.drop_last(), depth);
            if let Some(m) = self.plain_seq(pend, dq, rs.drop_last(), depth) {
                self.lemma_plain_result_same(other, m.0, m.1, rs.last(), depth);
            }
        }
    }

    proof fn lemma_plain_seq_prefix(&self, pend: Seq<KeyCode>, dq: Seq<KeyCode>, rs: Seq<InputResult>, depth: int, n: int)
        requires
            0 <= n <= rs.len(),
            self.plain_seq(pend, dq, rs, depth) is Some,
        ensures
            self.plain_seq(pend, dq, rs.subrange(0, n), depth) is Some,
            self.plain_seq(pend, dq, rs.subrange(0, n), depth)->Some_0.2.len()
                <= self.plain_seq(pend, dq, rs, depth)->Some_0.2.len(),
            extends(self.plain_seq(pend, dq, rs.subrange(0, n), depth)->Some_0.2, self.plain_seq(pend, dq, rs, depth)->Some_0.2),
        decreases rs.len() - n,
    {
        if n < rs.len() {
            assert(rs.subrange(0, n + 1).drop_last() =~= rs.subrange(0, n));
            self.lemma_plain_seq_prefix(pend, dq, rs, depth, n + 1);
            let e0 = self.plain_seq(pend, dq, rs.subrange(0, n), depth)->Some_0;
            let e1 = self.plain_seq(pend, dq, rs.subrange(0, n + 1), depth)->Some_0;
            let m2 = self.plain_result(e0.0, e0.1, rs.subrange(0, n + 1).last(), depth)->Some_0;
            assert(e1.2 == e0.2 + m2.2);
            lemma_extends_refl(e0.2);
            lemma_extends_append(e0.2, e0.2, m2.2);
            lemma_extends_trans(e0.2, e1.2, self.plain_seq(pend, dq, rs, depth)->Some_0.2);
        } else {
            assert(rs.subrange(0, n) =~= rs);
        }
    }

    /// Expanding macro `id` and dispatching its pieces at depth `depth`, where
    /// the macro reads nothing from the environment and expands.
    pub open spec fn macro_outcome(&self, id: MacroId, depth: int) -> Option<(Seq<KeyCode>, Seq<KeyCode>, Seq<KeyEvent>)> {
        if id < self.macro_table().len() && !macro_reads_environment(self.macro_table()[id as int]) {
            match steps_results(macro_steps(self.macro_table()[id as int]), self.general().unicode_input_delay) {
                Some(pieces) => self.plain_seq(self.staging().pending_seq(), self.staging().deferred(), pieces, depth),
                None => None,
            }
        } else {
            None
        }
    }

    /// `next` is where this state goes with outcome `m`: the events emitted,
    /// the pending set and the deferred queue; managers unchanged.
    pub open spec fn ends_as(&self, next: &Self, m: (Seq<KeyCode>, Seq<KeyCode>, Seq<KeyEvent>)) -> bool {
        &&& next.emitted() == self.emitted() + m.2
        &&& next.staging().pending_seq() == m.0
        &&& next.staging().deferred() == m.1
        &&& next.layers() == self.layers()
        &&& next.tap_dances() == self.tap_dances()
        &&& next.combos() == self.combos()
    }

    /// Every code of `s` resolves to a custom code of `s` that nothing claims:
    /// the remaps of `s` form a cycle that never reaches the sink.
    pub open spec fn press_cycle(&self, s: Set<u16>) -> bool {
        forall|x: u16| #[trigger] s.contains(x) ==> {
            let a = self.resolve(x);
            &&& a is KeyCode
            &&& is_custom_code(a->KeyCode_0.0)
            &&& s.contains(a->KeyCode_0.0)
            &&& self.unclaimed(a->KeyCode_0.0)
        }
    }

    /// The action that a key code resolves to through the base table and the layers.
    pub open spec fn resolve(&self, code: u16) -> KeyAction {
        layered_action(self.layers().definitions(), self.layers().stack(), mapped_action(self.mapping().table(), code))
    }

    pub fn new(config: KeyboardConfig, defaults: DefaultConfig, proxy: P) -> (r: Self)
        ensures
            r.wf(),
            r.emitted().len() == 0,
            r.general() == defaults.general,
            r.mapping().table() == config.keys@,
            r.layers().definitions() == config.layers@,
            r.layers().stack().len() == 0,
            r.tap_dances().table() == config.tap_dances@,
            r.combos().definitions() == crate::combo::by_arity(config.combos.0@),
            r.macro_table() == config.macros@,
            !r.staging().any_pending(),
            r.staging().results().len() == 0,
            r.staging().deferred().len() == 0,
    {
        let KeyboardConfig { name: _, keys, combos, tap_dances, layers, macros } = config;
        KeyAdapter {
            proxy,
            buffer: InputBuffer::new(),
            config: defaults.general,
            macros,
            mapping_manager: MappingManager::new(keys),
            combo_manager: ComboManager::new(combos, defaults.combo),
            tap_dance_manager: TapDanceManager::new(tap_dances, defaults.tap_dance),
            layer_manager: LayerManager::new(layers),
            now: 0,
            emitted: Ghost(Seq::empty()),
            tick_buffer: Ghost(arbitrary()),
            tick_combos: Ghost(arbitrary()),
        }
    }

    pub fn proxy(&self) -> &P {
        &self.proxy
    }

    /// Hands one resolved key transition to the sink.
    fn emit_key(&mut self, code: KeyCode, kind: KeyEventKind) -> (r: Result<(), EngineError>)
        requires
            old(self).wf(),
            !is_custom_code(code.0),
        ensures
            final(self).wf(),
            old(self).keeps(&*final(self)),
            final(self).emitted() == old(self).emitted() + emit_events(code, kind),
            final(self).staging() == old(self).staging(),
            final(self).layers() == old(self).layers(),
            final(self).tap_dances() == old(self).tap_dances(),
            final(self).combos() == old(self).combos(),
    {
        let mut events: Vec<KeyEvent> = Vec::new();
        if code.is_shifted() {
            let p = code.unshift();
            let shift = KeyCode::shift();
            match kind {
                KeyEventKind::Press => {
                    events.push(KeyEvent::new(shift, KeyEventKind::Press));
                    events.push(KeyEvent::new(shift, KeyEventKind::Hold));
                    events.push(KeyEvent::new(p, KeyEventKind::Press));
                },
                KeyEventKind::Hold => {
                    events.push(KeyEvent::new(p, KeyEventKind::Hold));
                },
                KeyEventKind::Release => {
                    events.push(KeyEvent::new(p, KeyEventKind::Release));
                    events.push(KeyEvent::new(shift, KeyEventKind::Release));
                },
            }
        } else {
            events.push(KeyEvent::new(code, kind));
        }
        assert(events@ =~= emit_events(code, kind));
        assert(forall|j: int| 0 <= j < events@.len() ==> !is_custom_code(#[trigger] events@[j].code.0));
        let r = self.proxy.emit(events.as_slice());
        let ghost before = self.emitted@;
        self.emitted = Ghost(self.emitted@ + events@);
        assert forall|i: int| 0 <= i < self.emitted@.len() implies !is_custom_code(#[trigger] self.emitted@[i].code.0) by {
            if i >= before.len() {
                assert(self.emitted@[i] == events@[i - before.len()]);
            } else {
                assert(self.emitted@[i] == before[i]);
                assert(before == old(self).emitted@);
                assert(!is_custom_code(old(self).emitted@[i].code.0));
            }
        }
        r
    }

    /// The result of a press of `action`: the first of tap-dance, combo and
    /// layer that takes the code, else the press itself; a macro expands.
    pub fn handle_press(&mut self, action: KeyAction) -> (r: InputResult)
        requires
            old(self).wf(),
        ensures
            final(self).wf(),
            old(self).keeps(&*final(self)),
            final(self).staging() == old(self).staging(),
            final(self).emitted() == old(self).emitted(),
            action matches KeyAction::Macro(m) ==> r == InputResult::Macro(m) && old(self).same_state(&*final(self)),
            action matches KeyAction::KeyCode(c) ==> {
                &&& first_entry(old(self).tap_dances().table(), c.0) is Some ==> r == InputResult::Pending(c)
                &&& first_entry(old(self).tap_dances().table(), c.0) is None
                    && in_some_combo(old(self).combos().definitions(), c.0) ==> r == InputResult::Pending(c)
                &&& first_entry(old(self).tap_dances().table(), c.0) is None
                    && !in_some_combo(old(self).combos().definitions(), c.0)
                    && definition_of(old(self).layers().definitions(), c.0) is Some ==> r == InputResult::Nothing
                        && (!old(self).layers().is_active(c.0) ==> final(self).layers().stack()
                            == old(self).layers().stack().push(LayerManager::pushed_item(old(self).layers().stack(), c.0)))
                        && (old(self).layers().is_active(c.0) && definition_of(old(self).layers().definitions(), c.0)->Some_0.modifier.kind_spec()
                            == LayerModifierKind::Toggle ==> !final(self).layers().is_active(c.0))
                        && (old(self).layers().is_active(c.0) && definition_of(old(self).layers().definitions(), c.0)->Some_0.modifier.kind_spec()
                            != LayerModifierKind::Toggle ==> final(self).layers().stack() == old(self).layers().stack())
                &&& old(self).unclaimed(c.0) ==> r == InputResult::Press(c) && old(self).same_state(&*final(self))
            },
    {
        match action {
            KeyAction::KeyCode(code) => {
                let v = code.0;
                match self.tap_dance_manager.handle_press(v, self.now) {
                    Some(r) => r,
                    None => match self.combo_manager.handle_press(v, self.now) {
                        Some(r) => r,
                        None => match self.layer_manager.handle_press(v) {
                            Some(r) => r,
                            None => InputResult::Press(code),
                        },
                    },
                }
            },
            KeyAction::Macro(m) => InputResult::Macro(m),
        }
    }

    /// The result of kernel auto-repeat of `action`. A macro does not repeat.
    pub fn handle_hold(&mut self, action: KeyAction) -> (r: InputResult)
        requires
            old(self).wf(),
        ensures
            final(self).wf(),
            old(self).keeps(&*final(self)),
            final(self).staging() == old(self).staging(),
            final(self).emitted() == old(self).emitted(),
            action is Macro ==> r == InputResult::Nothing && old(self).same_state(&*final(self)),
            action matches KeyAction::KeyCode(c) ==> (r == InputResult::Nothing || r == InputResult::Hold(c)),
            action is KeyCode && r == InputResult::Hold(action->KeyCode_0) ==> old(self).same_state(&*final(self)),
            action is KeyCode ==> (r == InputResult::Hold(action->KeyCode_0) <==> {
                let c = action->KeyCode_0.0;
                &&& first_entry(old(self).tap_dances().table(), c) is None
                &&& !old(self).combo_absorbs_hold(c, old(self).clock())
                &&& !old(self).layers().is_active(c)
            }),
    {
        match action {
            KeyAction::KeyCode(code) => {
                let v = code.0;
                match self.tap_dance_manager.handle_hold(v) {
                    Some(r) => r,
                    None => match self.combo_manager.handle_hold(v, self.now) {
                        Some(r) => r,
                        None => match self.layer_manager.handle_hold(v) {
                            Some(r) => r,
                            None => InputResult::Hold(code),
                        },
                    },
                }
            },
            KeyAction::Macro(_) => InputResult::Nothing,
        }
    }

    /// The result of a release of `action`. A macro has nothing to release.
    pub fn handle_release(&mut self, action: KeyAction) -> (r: InputResult)
        requires
            old(self).wf(),
        ensures
            final(self).wf(),
            old(self).keeps(&*final(self)),
            final(self).staging() == old(self).staging(),
            final(self).emitted() == old(self).emitted(),
            action is Macro ==> r == InputResult::Nothing,
            action matches KeyAction::KeyCode(c) ==> (r == InputResult::Nothing || r == InputResult::Release(c)),
            action is KeyCode ==> (r == InputResult::Release(action->KeyCode_0) <==> {
                let c = action->KeyCode_0.0;
                &&& !(exists|j: int| 0 <= j < old(self).tap_dances().pressed().len()
                    && #[trigger] old(self).tap_dances().pressed()[j].code == c)
                &&& !(exists|j: int| 0 <= j < old(self).combos().pressed().len()
                    && #[trigger] old(self).combos().pressed()[j].code == c)
                &&& definition_of(old(self).layers().definitions(), c) is None
            }),
            action is KeyCode && old(self).releases_plainly(action->KeyCode_0.0) ==> (r == InputResult::Release(
                action->KeyCode_0,
            ) && final(self).layers().stack() == old(self).layers().stack()),
    {
        match action {
            KeyAction::KeyCode(code) => {
                let v = code.0;
                match self.tap_dance_manager.handle_release(v) {
                    Some(r) => r,
                    None => match self.combo_manager.handle_release(v) {
                        Some(r) => r,
                        None => match self.layer_manager.handle_release(v) {
                            Some(r) => r,
                            None => InputResult::Release(code),
                        },
                    },
                }
            },
            KeyAction::Macro(_) => InputResult::Nothing,
        }
    }

    /// Dispatches one result at recursion depth `depth`; beyond the
    /// configured maximum lookup depth the result is dropped.
    #[verifier::rlimit(80)]
    fn dispatch_result(&mut self, result: &InputResult, depth: u16) -> (r: Result<(), EngineError>)
        requires
            old(self).wf(),
            depth <= 256,
        ensures
            final(self).wf(),
            old(self).keeps(&*final(self)),
            depth > old(self).general().maximum_lookup_depth ==> *final(self) == *old(self),
            depth <= old(self).general().maximum_lookup_depth && result is Pending
                ==> final(self).staging().is_pending(result->Pending_0) && final(self).emitted() == old(self).emitted(),
            depth <= old(self).general().maximum_lookup_depth && result is Press && old(self).staging().any_pending()
                && !old(self).staging().is_pending(result->Press_0) ==> final(self).emitted() == old(self).emitted()
                && final(self).staging().deferred() == bounded_push(old(self).staging().deferred(), result->Press_0, 4),
            depth <= old(self).general().maximum_lookup_depth && (result is Nothing || result is Delay)
                ==> final(self).emitted() == old(self).emitted(),
            depth <= old(self).general().maximum_lookup_depth && result is Press
                && !(old(self).staging().any_pending() && !old(self).staging().is_pending(result->Press_0))
                && old(self).resolves_plainly(result->Press_0.0) ==> final(self).emitted() == old(self).emitted()
                + emit_events(old(self).resolve(result->Press_0.0)->KeyCode_0, KeyEventKind::Press)
                && old(self).same_state(&*final(self)),
            depth <= old(self).general().maximum_lookup_depth && result is Hold
                && old(self).resolves_plainly(result->Hold_0.0) ==> final(self).emitted() == old(self).emitted()
                + emit_events(old(self).resolve(result->Hold_0.0)->KeyCode_0, KeyEventKind::Hold),
            depth <= old(self).general().maximum_lookup_depth && result is Release
                && !old(self).staging().is_pending(result->Release_0)
                && old(self).resolves_plainly(result->Release_0.0) ==> final(self).emitted() == old(self).emitted()
                + emit_events(old(self).resolve(result->Release_0.0)->KeyCode_0, KeyEventKind::Release),
            depth > old(self).general().maximum_lookup_depth ==> r is Ok,
            result is Press && !old(self).staging().any_pending()
                && (exists|s: Set<u16>| old(self).press_cycle(s) && s.contains(result->Press_0.0))
                ==> r is Ok && final(self).emitted() == old(self).emitted() && old(self).same_state(&*final(self)),
            depth <= old(self).general().maximum_lookup_depth && (result is Nothing || result is Pending) ==> r is Ok,
            depth <= old(self).general().maximum_lookup_depth && result is Press && old(self).staging().any_pending()
                && !old(self).staging().is_pending(result->Press_0) ==> r is Ok,
            old(self).plain_result(old(self).staging().pending_seq(), old(self).staging().deferred(), *result, depth as int)
                matches Some(m) ==> (r is Ok ==> old(self).ends_as(&*final(self), m)),
            old(self).plain_result(old(self).staging().pending_seq(), old(self).staging().deferred(), *result, depth as int)
                matches Some(m) ==> (m.2.len() == 0 ==> r is Ok),
            old(self).plain_result(old(self).staging().pending_seq(), old(self).staging().deferred(), *result, depth as int)
                matches Some(m) ==> extends(final(self).emitted(), old(self).emitted() + m.2),
            depth <= old(self).general().maximum_lookup_depth && result is Macro ==> (old(self).macro_outcome(
                result->Macro_0,
                depth + 1,
            ) matches Some(m) ==> (r is Ok ==> old(self).ends_as(&*final(self), m)) && (m.2.len() == 0 ==> r is Ok)
                && extends(final(self).emitted(), old(self).emitted() + m.2)),
        decreases 257 - depth, 0nat,
    {
        let ghost pend = self.buffer.pending_seq();
        let ghost dq = self.buffer.deferred();
        proof {
            assert(self.emitted() + Seq::<KeyEvent>::empty() =~= self.emitted());
        }
        if depth > self.config.maximum_lookup_depth as u16 {
            return Ok(());
        }
        let next = depth + 1;
        match result {
            InputResult::Pending(code) => {
                self.buffer.set_pending_key(*code);
                Ok(())
            },
            InputResult::Press(code) => {
                if !self.buffer.is_pending_key(code) && self.buffer.has_pending_keys() {
                    self.buffer.defer_key(*code);
                    Ok(())
                } else {
                    self.dispatch_event_result(*code, KeyEventKind::Press, next)
                }
            },
            InputResult::Hold(code) => self.dispatch_event_result(*code, KeyEventKind::Hold, next),
            InputResult::Release(code) => {
                if self.buffer.is_pending_key(code) {
                    self.dispatch_pending_key(*code, next)
                } else {
                    self.dispatch_event_result(*code, KeyEventKind::Release, next)
                }
            },
            InputResult::DoubleSequence(pair) => {
                let ghost s0 = *self;
                let r1 = self.dispatch_result(&pair[0], next);
                if r1.is_err() {
                    proof {
                        if next <= s0.general().maximum_lookup_depth {
                            if let Some(m1) = s0.plain_simple(pend, dq, pair[0], next as int) {
                                assert(s0.plain_result(pend, dq, pair[0], next as int) == Some(m1)) by {
                                    if pair[0] is DoubleSequence {
                                        assert(s0.plain_simple(pend, dq, pair[0], next as int) is None);
                                    }
                                }
                                if let Some(m2) = s0.plain_simple(m1.0, m1.1, pair[1], next as int) {
                                    lemma_extends_append(self.emitted(), s0.emitted() + m1.2, m2.2);
                                    assert(s0.emitted() + m1.2 + m2.2 =~= s0.emitted() + (m1.2 + m2.2));
                                }
                            }
                        }
                    }
                    return r1;
                }
                let ghost s1 = *self;
                proof {
                    if next <= s0.general().maximum_lookup_depth {
                        if let Some(m1) = s0.plain_simple(pend, dq, pair[0], next as int) {
                            assert(s0.plain_result(pend, dq, pair[0], next as int) == Some(m1)) by {
                                if pair[0] is DoubleSequence {
                                    assert(s0.plain_simple(pend, dq, pair[0], next as int) is None);
                                }
                            }
                            assert(s0.ends_as(&s1, m1));
                            assert(s1.layers() == s0.layers());
                            assert(s1.mapping() == s0.mapping());
                            assert(s1.general() == s0.general());
                            s0.lemma_flush_same(&s1, m1.1);
                            assert(s1.plain_simple(m1.0, m1.1, pair[1], next as int)
                                == s0.plain_simple(m1.0, m1.1, pair[1], next as int));
                        }
                    }
                }
                let r2 = self.dispatch_result(&pair[1], next);
                proof {
                    if next <= s0.general().maximum_lookup_depth {
                        if let Some(m1) = s0.plain_simple(pend, dq, pair[0], next as int) {
                            if let Some(m2) = s0.plain_simple(m1.0, m1.1, pair[1], next as int) {
                                assert(s1.plain_result(m1.0, m1.1, pair[1], next as int) == Some(m2)) by {
                                    if pair[1] is DoubleSequence {
                                        assert(s1.plain_simple(m1.0, m1.1, pair[1], next as int) is None);
                                    }
                                }
                                assert(s0.emitted() + (m1.2 + m2.2) =~= s0.emitted() + m1.2 + m2.2);
                            }
                        }
                    } else {
                        assert(s1 == s0);
                        assert(s0.emitted() + Seq::<KeyEvent>::empty() =~= s0.emitted());
                    }
                }
                r2
            },
            InputResult::Macro(id) => self.dispatch_event_macro(*id, next),
            InputResult::Delay(ms) => {
                self.proxy.sleep(*ms);
                Ok(())
            },
            InputResult::Nothing => Ok(()),
        }
    }

    /// Looks `code` up again through the base table and the layers: a plain
    /// key code goes to the sink, anything else (a custom code, a macro)
    /// re-enters the pipeline.
    fn dispatch_event_result(&mut self, code: KeyCode, kind: KeyEventKind, depth: u16) -> (r: Result<(), EngineError>)
        requires
            old(self).wf(),
            depth <= 256,
        ensures
            final(self).wf(),
            old(self).keeps(&*final(self)),
            old(self).resolves_plainly(code.0) ==> final(self).emitted() == old(self).emitted()
                + emit_events(old(self).resolve(code.0)->KeyCode_0, kind) && old(self).same_state(&*final(self)),
            kind == KeyEventKind::Press && !old(self).staging().any_pending()
                && (exists|s: Set<u16>| old(self).press_cycle(s) && s.contains(code.0))
                ==> r is Ok && final(self).emitted() == old(self).emitted() && old(self).same_state(&*final(self)),
        decreases 257 - depth, 1nat,
    {
        let action = self.mapping_manager.map(&code.0);
        let action = self.layer_manager.map(action);
        match action {
            KeyAction::KeyCode(k) => {
                if !k.is_custom() {
                    return self.emit_key(k, kind);
                }
            },
            KeyAction::Macro(_) => {},
        }
        let result = match kind {
            KeyEventKind::Press => self.handle_press(action),
            KeyEventKind::Hold => self.handle_hold(action),
            KeyEventKind::Release => self.handle_release(action),
        };
        self.dispatch_result(&result, depth)
    }

    /// The release of a pending code clears its marker; once no code is
    /// pending, the deferred presses are flushed in order as taps.
    fn dispatch_pending_key(&mut self, code: KeyCode, depth: u16) -> (r: Result<(), EngineError>)
        requires
            old(self).wf(),
            depth <= 256,
        ensures
            final(self).wf(),
            old(self).keeps(&*final(self)),
            old(self).pending_release(old(self).staging().pending_seq(), old(self).staging().deferred(), code, depth as int)
                matches Some(m) ==> (r is Ok ==> old(self).ends_as(&*final(self), m)),
            old(self).pending_release(old(self).staging().pending_seq(), old(self).staging().deferred(), code, depth as int)
                matches Some(m) ==> extends(final(self).emitted(), old(self).emitted() + m.2),
        decreases 257 - depth, 2nat,
    {
        let ghost s0 = *self;
        let ghost pend = self.buffer.pending_seq();
        let ghost dq = self.buffer.deferred();
        self.buffer.clear_pending_key(&code);
        let ghost s1 = *self;
        self.dispatch_event_result(code, KeyEventKind::Release, depth)?;
        proof {
            assert(s1.resolve(code.0) == s0.resolve(code.0));
        }
        if self.buffer.has_pending_keys() {
            return Ok(());
        }
        let ghost start = *self;
        let ghost plain = s0.pending_release(pend, dq, code, depth as int) is Some;
        proof {
            if plain {
                assert(start.buffer.deferred() == dq);
                assert(start.buffer.pending_seq() == pend.filter(other_than(code)));
                s0.lemma_flush_same(&start, dq);
            }
        }
        let mut keys: Vec<KeyCode> = Vec::new();
        loop
            invariant
                self.wf(),
                old(self).keeps(&start),
                start.keeps(&*self),
                self.emitted() == start.emitted(),
                keys@ + self.buffer.deferred() == start.buffer.deferred(),
                self.buffer.pending_seq() == start.buffer.pending_seq(),
                self.layer_manager == start.layer_manager,
                self.tap_dance_manager == start.tap_dance_manager,
                self.combo_manager == start.combo_manager,
            ensures
                keys@ == start.buffer.deferred(),
                self.buffer.deferred().len() == 0,
            decreases self.buffer.deferred().len(),
        {
            let ghost before = *self;
            match self.buffer.pop_deferred_key() {
                Some(k) => {
                    assert(self.buffer.pending_seq() =~= before.buffer.pending_seq());
                    keys.push(k);
                    assert(keys@ + self.buffer.deferred() =~= start.buffer.deferred());
                },
                None => {
                    assert(keys@ + self.buffer.deferred() =~= keys@);
                    break;
                },
            }
        }
        assert(self.buffer.pending_seq() =~= start.buffer.pending_seq());
        let ghost drained = *self;
        let ghost fits = depth + 1 <= self.config.maximum_lookup_depth as u16;
        let mut i: usize = 0;
        while i < keys.len()
            invariant
                self.wf(),
                depth <= 256,
                old(self).keeps(&start),
                start.keeps(&*self),
                keys@ == start.buffer.deferred(),
                i <= keys@.len(),
                fits == (depth + 1 <= self.general().maximum_lookup_depth),
                self.general() == start.general(),
                self.mapping() == start.mapping(),
                plain ==> self.buffer.deferred().len() == 0,
                plain ==> keys@ == dq,
                plain ==> self.layers() == start.layers(),
                plain ==> self.tap_dances() == start.tap_dances(),
                plain ==> self.combos() == start.combos(),
                plain ==> self.buffer.pending_seq() == pend.filter(other_than(code)),
                plain ==> pend.filter(other_than(code)).len() == 0,
                plain && fits ==> start.flush_events(dq) is Some,
                plain && fits ==> start.flush_events(keys@.subrange(0, i as int)) is Some
                    && self.emitted() == start.emitted() + start.flush_events(keys@.subrange(0, i as int))->Some_0,
                plain && !fits ==> self.emitted() == start.emitted(),
                plain ==> start.emitted() == s0.emitted() + s0.plain_emit(code, KeyEventKind::Release),
                plain ==> s0.flush_events(dq) == start.flush_events(dq),
                plain ==> s0.general() == start.general(),
                plain == (s0.pending_release(pend, dq, code, depth as int) is Some),
                s0 == *old(self),
                pend == old(self).buffer.pending_seq(),
                dq == old(self).buffer.deferred(),
            decreases keys.len() - i,
        {
            let w = self.proxy.wait(self.config.deferred_key_delay);
            if w.is_err() {
                proof {
                    if plain && fits {
                        start.lemma_flush_prefix(dq, i as int);
                        lemma_extends_refl(start.emitted());
                        let fi = start.flush_events(keys@.subrange(0, i as int))->Some_0;
                        let fa = start.flush_events(dq)->Some_0;
                        assert forall|x: int| 0 <= x < self.emitted().len() implies #[trigger] (start.emitted() + fa)[x] == self.emitted()[x] by {
                            if x >= start.emitted().len() {
                                assert(fa[x - start.emitted().len()] == fi[x - start.emitted().len()]);
                            }
                        }
                        assert(extends(self.emitted(), start.emitted() + fa));
                        assert(start.emitted() + fa =~= s0.emitted() + (s0.plain_emit(code, KeyEventKind::Release) + fa));
                        assert(s0.pending_release(pend, dq, code, depth as int)->Some_0.2
                            == s0.plain_emit(code, KeyEventKind::Release) + fa);
                    }
                    if plain && !fits {
                        lemma_extends_refl(self.emitted());
                        assert(s0.pending_release(pend, dq, code, depth as int)->Some_0.2 == s0.plain_emit(code, KeyEventKind::Release));
                    }
                }
                return w;
            }
            let k = keys[i];
            let tap = InputResult::double(InputResult::Press(k), InputResult::Release(k));
            let ghost before = *self;
            proof {
                assert(keys@.subrange(0, i + 1).drop_last() =~= keys@.subrange(0, i as int));
                if plain && fits {
                    start.lemma_flush_prefix(dq, i + 1);
                    start.lemma_flush_same(&before, keys@.subrange(0, i + 1));
                    assert(self.emitted() + Seq::<KeyEvent>::empty() =~= self.emitted());
                }
                assert(self.emitted() + Seq::<KeyEvent>::empty() =~= self.emitted());
            }
            let rt = self.dispatch_result(&tap, depth);
            if rt.is_err() {
                proof {
                    if plain && fits {
                        start.lemma_flush_prefix(dq, i + 1);
                        let fi = start.flush_events(keys@.subrange(0, i + 1))->Some_0;
                        let fa = start.flush_events(dq)->Some_0;
                        assert(before.emitted() + before.plain_result(before.buffer.pending_seq(), before.buffer.deferred(), tap, depth as int)->Some_0.2
                            =~= start.emitted() + fi);
                        lemma_extends_append(fi, fa, Seq::<KeyEvent>::empty());
                        assert(fa + Seq::<KeyEvent>::empty() =~= fa);
                        assert forall|x: int| 0 <= x < (start.emitted() + fi).len() implies #[trigger] (start.emitted() + fa)[x] == (start.emitted() + fi)[x] by {
                            if x >= start.emitted().len() {
                                assert(fa[x - start.emitted().len()] == fi[x - start.emitted().len()]);
                            }
                        }
                        lemma_extends_trans(self.emitted(), start.emitted() + fi, start.emitted() + fa);
                        assert(start.emitted() + fa =~= s0.emitted() + (s0.plain_emit(code, KeyEventKind::Release) + fa));
                        assert(s0.pending_release(pend, dq, code, depth as int)->Some_0.2
                            == s0.plain_emit(code, KeyEventKind::Release) + fa);
                    }
                    if plain && !fits {
                        assert(before.emitted() + Seq::<KeyEvent>::empty() =~= before.emitted());
                        assert(s0.pending_release(pend, dq, code, depth as int)->Some_0.2 == s0.plain_emit(code, KeyEventKind::Release));
                        assert(before.plain_result(before.buffer.pending_seq(), before.buffer.deferred(), tap, depth as int)->Some_0.2
                            == Seq::<KeyEvent>::empty());
                    }
                }
                return rt;
            }
            proof {
                if plain && fits {
                    let pre = keys@.subrange(0, i as int);
                    assert(self.emitted() =~= start.emitted() + start.flush_events(keys@.subrange(0, i + 1))->Some_0);
                }
            }
            i = i + 1;
        }
        proof {
            assert(keys@.subrange(0, keys@.len() as int) =~= keys@);
            if plain {
                assert(start.resolve(code.0) == s0.resolve(code.0));
                s0.lemma_flush_same(&start, dq);
                assert(s0.emitted() + s0.plain_emit(code, KeyEventKind::Release) == start.emitted());
                assert(self.buffer.deferred() =~= Seq::<KeyCode>::empty());
                if fits {
                    assert(s0.emitted() + (s0.plain_emit(code, KeyEventKind::Release) + start.flush_events(dq)->Some_0)
                        =~= start.emitted() + start.flush_events(dq)->Some_0);
                } else {
                    assert(s0.emitted() + s0.plain_emit(code, KeyEventKind::Release) =~= self.emitted());
                }
            }
        }
        Ok(())
    }

    /// Expands macro `id` and dispatches its pieces in order; an expansion
    /// that fails dispatches nothing.
    fn dispatch_event_macro(&mut self, id: MacroId, depth: u16) -> (r: Result<(), EngineError>)
        requires
            old(self).wf(),
            depth <= 256,
        ensures
            final(self).wf(),
            old(self).keeps(&*final(self)),
            id >= old(self).macro_table().len() ==> r is Ok && *final(self) == *old(self),
            id < old(self).macro_table().len() && !macro_reads_environment(old(self).macro_table()[id as int])
                && steps_results(macro_steps(old(self).macro_table()[id as int]), old(self).general().unicode_input_delay)
                is None ==> (r matches Err(EngineError::InvalidCharacter(_))) && final(self).emitted() == old(self).emitted(),
            id < old(self).macro_table().len() && !macro_reads_environment(old(self).macro_table()[id as int])
                ==> (steps_results(macro_steps(old(self).macro_table()[id as int]), old(self).general().unicode_input_delay)
                matches Some(pieces) ==> (old(self).plain_seq(
                    old(self).staging().pending_seq(),
                    old(self).staging().deferred(),
                    pieces,
                    depth as int,
                ) matches Some(m) ==> (r is Ok ==> old(self).ends_as(&*final(self), m)))),
            id < old(self).macro_table().len() && !macro_reads_environment(old(self).macro_table()[id as int])
                ==> (steps_results(macro_steps(old(self).macro_table()[id as int]), old(self).general().unicode_input_delay)
                matches Some(pieces) ==> (old(self).plain_seq(
                    old(self).staging().pending_seq(),
                    old(self).staging().deferred(),
                    pieces,
                    depth as int,
                ) matches Some(m) ==> (m.2.len() == 0 ==> r is Ok) && extends(final(self).emitted(), old(self).emitted() + m.2))),
        decreases 257 - depth, 1nat,
    {
        if id >= self.macros.len() {
            return Ok(());
        }
        let delay = self.config.unicode_input_delay;
        let ghost steps = macro_steps(self.macros@[id as int]);
        let ghost pure = !macro_reads_environment(self.macros@[id as int]);
        let mut results: Vec<InputResult> = Vec::new();
        match &self.macros[id] {
            Macro::Single(e) => {
                proof {
                    assert(steps =~= seq![*e]);
                    assert(steps.drop_last() =~= Seq::<EventMacro>::empty());
                    if pure {
                        assert(!reads_environment(steps[0]));
                    }
                }
                expand_event(e, &mut self.proxy, delay, &mut results)?;
                proof {
                    if pure {
                        assert(results@ =~= Seq::<InputResult>::empty() + event_results(*e, delay)->Some_0);
                        assert(steps.last() == *e);
                        assert(steps_results(steps.drop_last(), delay) == Some(Seq::<InputResult>::empty()));
                        assert(steps_results(steps, delay) == Some(results@));
                    }
                }
            },
            Macro::Sequence(events) => {
                let mut j: usize = 0;
                while j < events.len()
                    invariant
                        self.wf(),
                        old(self).keeps(&*self),
                        self.emitted() == old(self).emitted(),
                        self.buffer == old(self).buffer,
                        self.layer_manager == old(self).layer_manager,
                        self.tap_dance_manager == old(self).tap_dance_manager,
                        self.combo_manager == old(self).combo_manager,
                        j <= events@.len(),
                        steps == events@,
                        delay == self.config.unicode_input_delay,
                        pure == !macro_reads_environment(old(self).macros@[id as int]),
                        id < old(self).macros@.len(),
                        steps == macro_steps(old(self).macros@[id as int]),
                        pure ==> steps_results(steps.subrange(0, j as int), delay) == Some(results@),
                    decreases events.len() - j,
                {
                    let ghost pre = steps.subrange(0, j as int);
                    assert(steps.subrange(0, j + 1).drop_last() =~= pre);
                    assert(steps.subrange(0, j + 1).last() == events@[j as int]);
                    proof {
                        if pure {
                            assert(!reads_environment(steps[j as int]));
                        }
                    }
                    let res = expand_event(&events[j], &mut self.proxy, delay, &mut results);
                    if res.is_err() {
                        proof {
                            if pure && steps_results(steps, delay) is Some {
                                lemma_steps_prefix(steps, delay, j + 1);
                                assert(event_results(steps[j as int], delay) is Some);
                            }
                        }
                        return res;
                    }
                    j = j + 1;
                }
                proof {
                    assert(steps.subrange(0, j as int) =~= steps);
                }
            },
        }
        let ghost start = *self;
        let ghost pend0 = self.buffer.pending_seq();
        let ghost dq0 = self.buffer.deferred();
        assert(self.buffer == old(self).buffer);
        let ghost model_ok = pure && old(self).plain_seq(pend0, dq0, results@, depth as int) is Some;
        proof {
            assert(results@.subrange(0, 0) =~= Seq::<InputResult>::empty());
            assert(old(self).emitted() + Seq::<KeyEvent>::empty() =~= old(self).emitted());
        }
        let mut i: usize = 0;
        while i < results.len()
            invariant
                self.wf(),
                depth <= 256,
                old(self).keeps(&start),
                start.keeps(&*self),
                i <= results@.len(),
                self.general() == old(self).general(),
                self.mapping() == old(self).mapping(),
                model_ok == (pure && old(self).plain_seq(pend0, dq0, results@, depth as int) is Some),
                id < old(self).macros@.len(),
                pure == !macro_reads_environment(old(self).macros@[id as int]),
                steps == macro_steps(old(self).macros@[id as int]),
                delay == old(self).config.unicode_input_delay,
                pure ==> steps_results(steps, delay) == Some(results@),
                pend0 == old(self).buffer.pending_seq(),
                dq0 == old(self).buffer.deferred(),
                i == 0 ==> self.emitted() == old(self).emitted(),
                model_ok ==> old(self).plain_seq(pend0, dq0, results@.subrange(0, i as int), depth as int) is Some,
                model_ok ==> ({
                    let m = old(self).plain_seq(pend0, dq0, results@.subrange(0, i as int), depth as int)->Some_0;
                    &&& old(self).ends_as(&*self, m)
                }),
            decreases results.len() - i,
        {
            proof {
                assert(results@.subrange(0, i + 1).drop_last() =~= results@.subrange(0, i as int));
                assert(results@.subrange(0, i + 1).last() == results@[i as int]);
                if model_ok {
                    old(self).lemma_plain_seq_prefix(pend0, dq0, results@, depth as int, i + 1);
                    let m = old(self).plain_seq(pend0, dq0, results@.subrange(0, i as int), depth as int)->Some_0;
                    old(self).lemma_plain_result_same(&*self, m.0, m.1, results@[i as int], depth as int);
                    let m2 = old(self).plain_result(m.0, m.1, results@[i as int], depth as int)->Some_0;
                    assert(old(self).plain_seq(pend0, dq0, results@.subrange(0, i + 1), depth as int)->Some_0.2 == m.2 + m2.2);
                }
            }
            let ghost cur = *self;
            let rr = self.dispatch_result(&results[i], depth);
            if rr.is_err() {
                proof {
                    if model_ok {
                        let m = old(self).plain_seq(pend0, dq0, results@.subrange(0, i as int), depth as int)->Some_0;
                        let m2 = old(self).plain_result(m.0, m.1, results@[i as int], depth as int)->Some_0;
                        let full = old(self).plain_seq(pend0, dq0, results@, depth as int)->Some_0;
                        let next = old(self).plain_seq(pend0, dq0, results@.subrange(0, i + 1), depth as int)->Some_0;
                        assert(cur.emitted() + m2.2 =~= old(self).emitted() + next.2);
                        lemma_extends_prepend(old(self).emitted(), next.2, full.2);
                        lemma_extends_trans(self.emitted(), old(self).emitted() + next.2, old(self).emitted() + full.2);
                    }
                }
                return rr;
            }
            proof {
                if model_ok {
                    let m = old(self).plain_seq(pend0, dq0, results@.subrange(0, i as int), depth as int)->Some_0;
                    let m2 = old(self).plain_result(m.0, m.1, results@[i as int], depth as int)->Some_0;
                    assert(old(self).emitted() + m.2 + m2.2 =~= old(self).emitted() + (m.2 + m2.2));
                }
            }
            i = i + 1;
        }
        proof {
            assert(results@.subrange(0, results@.len() as int) =~= results@);
        }
        Ok(())
    }

    /// Handles one key event from the source device at time `now`
    /// (milliseconds on a monotonic clock): the code is rewritten by the base
    /// table and the layers, handed to tap-dance, combo and layer handling,
    /// and the outcome is dispatched.
    #[verifier::rlimit(80)]
    pub fn process_event(&mut self, event: KeyEvent, now: u64) -> (r: Result<(), EngineError>)
        requires
            old(self).wf(),
        ensures
            final(self).wf(),
            old(self).same_config(&*final(self)),
            final(self).clock() == now,
            final(self).staging().results() == old(self).staging().results(),
            extends(old(self).emitted(), final(self).emitted()),
            old(self).resolve(event.code.0) is Macro && event.kind == KeyEventKind::Press ==> (old(self).macro_outcome(
                old(self).resolve(event.code.0)->Macro_0,
                1,
            ) matches Some(m) ==> (r is Ok ==> old(self).ends_as(&*final(self), m)) && (m.2.len() == 0 ==> r is Ok)
                && extends(final(self).emitted(), old(self).emitted() + m.2)),
            old(self).resolve(event.code.0) is Macro && event.kind == KeyEventKind::Hold
                ==> r is Ok && old(self).ends_as(&*final(self), (old(self).staging().pending_seq(), old(self).staging().deferred(), Seq::empty())),
            old(self).resolve(event.code.0) is KeyCode ==> ({
                let c = old(self).resolve(event.code.0)->KeyCode_0;
                &&& event.kind == KeyEventKind::Press && old(self).unclaimed(c.0) && old(self).resolves_plainly(c.0)
                    && !(old(self).staging().any_pending() && !old(self).staging().is_pending(c))
                    ==> final(self).emitted() == old(self).emitted()
                        + emit_events(old(self).resolve(c.0)->KeyCode_0, KeyEventKind::Press)
                        && old(self).same_state(&*final(self))
                &&& event.kind == KeyEventKind::Press && old(self).unclaimed(c.0)
                    && old(self).staging().any_pending() && !old(self).staging().is_pending(c)
                    ==> r is Ok && final(self).emitted() == old(self).emitted()
                        && final(self).staging().deferred() == bounded_push(old(self).staging().deferred(), c, 4)
                        && final(self).staging().pending_seq() == old(self).staging().pending_seq()
                &&& event.kind == KeyEventKind::Press && (first_entry(old(self).tap_dances().table(), c.0) is Some
                    || in_some_combo(old(self).combos().definitions(), c.0))
                    ==> r is Ok && final(self).emitted() == old(self).emitted() && final(self).staging().is_pending(c)
                &&& event.kind == KeyEventKind::Press && first_entry(old(self).tap_dances().table(), c.0) is None
                    && !in_some_combo(old(self).combos().definitions(), c.0)
                    && definition_of(old(self).layers().definitions(), c.0) is Some
                    ==> r is Ok && final(self).emitted() == old(self).emitted()
                        && (!old(self).layers().is_active(c.0) ==> final(self).layers().stack()
                            == old(self).layers().stack().push(LayerManager::pushed_item(old(self).layers().stack(), c.0)))
                        && (old(self).layers().is_active(c.0) && definition_of(old(self).layers().definitions(), c.0)->Some_0.modifier.kind_spec()
                            == LayerModifierKind::Toggle ==> !final(self).layers().is_active(c.0))
                &&& event.kind == KeyEventKind::Hold && first_entry(old(self).tap_dances().table(), c.0) is None
                    && !old(self).combo_absorbs_hold(c.0, now)
                    && !old(self).layers().is_active(c.0) && old(self).resolves_plainly(c.0)
                    ==> final(self).emitted() == old(self).emitted()
                        + emit_events(old(self).resolve(c.0)->KeyCode_0, KeyEventKind::Hold)
                &&& event.kind == KeyEventKind::Release && old(self).releases_plainly(c.0)
                    && old(self).resolves_plainly(c.0) && !old(self).staging().is_pending(c)
                    ==> final(self).emitted() == old(self).emitted()
                        + emit_events(old(self).resolve(c.0)->KeyCode_0, KeyEventKind::Release)
            }),
    {
        self.now = now;
        let action = self.mapping_manager.map(&event.code.0);
        let action = self.layer_manager.map(action);
        let result = match event.kind {
            KeyEventKind::Press => self.handle_press(action),
            KeyEventKind::Hold => self.handle_hold(action),
            KeyEventKind::Release => self.handle_release(action),
        };
        let ghost mid = *self;
        let r = self.dispatch_result(&result, 0);
        proof {
            if action is Macro && event.kind == KeyEventKind::Press {
                let id = action->Macro_0;
                if id < old(self).macro_table().len() && !macro_reads_environment(old(self).macro_table()[id as int]) {
                    if let Some(pieces) = steps_results(macro_steps(old(self).macro_table()[id as int]), old(self).general().unicode_input_delay) {
                        old(self).lemma_plain_seq_same(&mid, old(self).staging().pending_seq(), old(self).staging().deferred(), pieces, 1);
                    }
                }
                assert(mid.macro_outcome(id, 1) == old(self).macro_outcome(id, 1));
            }
            assert(mid.emitted() + Seq::<KeyEvent>::empty() =~= mid.emitted());
            if result is Pending {
                let c = result->Pending_0;
                let q = mid.buffer.pending_seq();
                if !q.contains(c) {
                    assert(add_pending(q, c)[add_pending(q, c).len() - 1] == c);
                }
                assert(add_pending(q, c).contains(c));
                if r is Ok {
                    assert(self.buffer.pending_seq().contains(c));
                    assert(self.buffer.is_pending(c));
                }
            }
            if result is Nothing {
                assert(mid.plain_result(mid.buffer.pending_seq(), mid.buffer.deferred(), result, 0)
                    == Some((mid.buffer.pending_seq(), mid.buffer.deferred(), Seq::<KeyEvent>::empty())));
                assert(self.layers() == mid.layers());
                assert(self.emitted() == mid.emitted());
            }
        }
        r
    }

    /// Lets tap-dance and combo decisions whose time has come take effect at
    /// time `now`, and dispatches everything they queued.
    pub fn post_process(&mut self, now: u64) -> (r: Result<(), EngineError>)
        requires
            old(self).wf(),
        ensures
            final(self).wf(),
            old(self).same_config(&*final(self)),
            final(self).clock() == now,
            extends(old(self).emitted(), final(self).emitted()),
            r is Ok ==> final(self).staging().results().len() == 0,
            final(self).ticked(&*old(self), now),
            final(self).tick_staging().results().len() == 0 ==> r is Ok && final(self).emitted() == old(self).emitted(),
            old(self).plain_seq(
                final(self).tick_staging().pending_seq(),
                final(self).tick_staging().deferred(),
                final(self).tick_staging().results(),
                0,
            ) matches Some(m) ==> (r is Ok ==> final(self).emitted() == old(self).emitted() + m.2
                && final(self).staging().pending_seq() == m.0 && final(self).staging().deferred() == m.1),
    {
        self.now = now;
        self.tap_dance_manager.process(&mut self.buffer, now);
        let ghost after_tap = self.buffer;
        self.combo_manager.process(&mut self.buffer, now);
        self.tick_buffer = Ghost(self.buffer);
        self.tick_combos = Ghost(self.combo_manager);
        proof {
            assert forall|c: KeyCode| #[trigger] self.buffer.is_pending(c) <==> old(self).staging().is_pending(c)
                && !tick_clears(old(self).tap_dances().pressed(), old(self).tap_dances().suppressed(), now, c)
                && !(old(self).combos().definitions().len() > 0 && fired_trigger(
                    ComboManager::fired_now(&old(self).combos(), &self.combo_manager),
                    old(self).combos().definitions(),
                    c.0,
                )) by {
                assert(after_tap.is_pending(c) <==> old(self).staging().is_pending(c)
                    && !tick_clears(old(self).tap_dances().pressed(), old(self).tap_dances().suppressed(), now, c));
            }
        }
        assert(self.ticked(&*old(self), now));
        let ghost start = *self;
        let ghost q = self.buffer.results();
        let ghost pend0 = self.buffer.pending_seq();
        let ghost dq0 = self.buffer.deferred();
        let ghost model_ok = old(self).plain_seq(pend0, dq0, q, 0) is Some;
        let ghost mut k: int = 0;
        proof {
            assert(q.subrange(0, 0) =~= Seq::<InputResult>::empty());
            assert(q.subrange(0, q.len() as int) =~= q);
            assert(old(self).emitted() + Seq::<KeyEvent>::empty() =~= old(self).emitted());
        }
        loop
            invariant
                self.wf(),
                old(self).same_config(&*self),
                self.now == now,
                extends(old(self).emitted(), self.emitted()),
                self.tick_buffer == start.tick_buffer,
                self.tick_combos == start.tick_combos,
                self.ticked(&*old(self), now),
                q == self.tick_buffer@.results(),
                pend0 == self.tick_buffer@.pending_seq(),
                dq0 == self.tick_buffer@.deferred(),
                model_ok == old(self).plain_seq(pend0, dq0, q, 0) is Some,
                0 <= k <= q.len(),
                self.buffer.results() == q.subrange(k, q.len() as int),
                k == 0 ==> self.emitted() == old(self).emitted(),
                model_ok ==> old(self).plain_seq(pend0, dq0, q.subrange(0, k), 0) is Some,
                model_ok ==> ({
                    let m = old(self).plain_seq(pend0, dq0, q.subrange(0, k), 0)->Some_0;
                    &&& self.emitted() == old(self).emitted() + m.2
                    &&& self.buffer.pending_seq() == m.0
                    &&& self.buffer.deferred() == m.1
                    &&& self.layers() == old(self).layers()
                }),
            ensures
                self.wf(),
                old(self).same_config(&*self),
                self.now == now,
                extends(old(self).emitted(), self.emitted()),
                self.tick_buffer == start.tick_buffer,
                self.tick_combos == start.tick_combos,
                self.ticked(&*old(self), now),
                q == self.tick_buffer@.results(),
                pend0 == self.tick_buffer@.pending_seq(),
                dq0 == self.tick_buffer@.deferred(),
                model_ok == old(self).plain_seq(pend0, dq0, q, 0) is Some,
                self.buffer.results().len() == 0,
                k == q.len(),
                q.len() == 0 ==> self.emitted() == old(self).emitted(),
                model_ok ==> ({
                    let m = old(self).plain_seq(pend0, dq0, q, 0)->Some_0;
                    &&& self.emitted() == old(self).emitted() + m.2
                    &&& self.buffer.pending_seq() == m.0
                    &&& self.buffer.deferred() == m.1
                }),
            decreases self.buffer.results().len(),
        {
            let ghost before = *self;
            match self.buffer.pop_result() {
                Some(result) => {
                    proof {
                        assert(result == q[k]);
                        assert(self.buffer.pending_seq() =~= before.buffer.pending_seq());
                        assert(q.subrange(0, k + 1).drop_last() =~= q.subrange(0, k));
                        assert(q.subrange(0, k + 1).last() == q[k]);
                        if model_ok {
                            old(self).lemma_plain_seq_prefix(pend0, dq0, q, 0, k + 1);
                            let m = old(self).plain_seq(pend0, dq0, q.subrange(0, k), 0)->Some_0;
                            old(self).lemma_plain_result_same(&*self, m.0, m.1, result, 0);
                        }
                    }
                    let ghost mid = *self;
                    self.dispatch_result(&result, 0)?;
                    proof {
                        assert(self.buffer.results() =~= q.subrange(k + 1, q.len() as int));
                        if model_ok {
                            let m = old(self).plain_seq(pend0, dq0, q.subrange(0, k), 0)->Some_0;
                            let m2 = old(self).plain_result(m.0, m.1, result, 0)->Some_0;
                            assert(old(self).emitted() + m.2 + m2.2 =~= old(self).emitted() + (m.2 + m2.2));
                        }
                        k = k + 1;
                    }
                },
                None => {
                    proof {
                        assert(q.subrange(k, q.len() as int).len() == 0);
                        assert(k == q.len());
                        assert(q.subrange(0, k) =~= q);
                    }
                    break;
                },
            }
        }
        Ok(())
    }

    /// Waits on the proxy until input is ready or the poll timeout passes.
    pub fn wait_for_input(&mut self) -> (r: Result<(), EngineError>)
        requires
            old(self).wf(),
        ensures
            final(self).wf(),
            old(self).keeps(&*final(self)),
            final(self).emitted() == old(self).emitted(),
            final(self).staging() == old(self).staging(),
            final(self).layers() == old(self).layers(),
            final(self).tap_dances() == old(self).tap_dances(),
            final(self).combos() == old(self).combos(),
    {
        self.proxy.wait(self.config.event_poll_timeout)
    }
}

} // verus!
