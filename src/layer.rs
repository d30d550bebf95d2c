use crate::config::{find_entry, first_entry, KeyAction, LayerDefinition, LayerModifierKind};
use crate::event::InputResult;
use crate::keycode::KeyCode;
use crate::lists::{layers_from_vec, layers_items, layers_new, layers_push, layers_to_vec, listed_layers, LayerList};
use vstd::prelude::*;

verus! {

/// A layer on the stack: its modifier, and the modifier of the layer that was
/// on top when it was pushed.
#[derive(Debug, Clone, Copy, PartialEq, Eq, Structural)]
pub struct LayerItem {
    pub modifier: u16,
    pub base_layer: Option<u16>,
}

/// The first definition whose modifier key has code `m`.
pub open spec fn definition_of(defs: Seq<LayerDefinition>, m: u16) -> Option<LayerDefinition>
    decreases defs.len(),
{
    if defs.len() == 0 {
        None
    } else if defs[0].modifier.modifier_spec().0 == m {
        Some(defs[0])
    } else {
        definition_of(defs.drop_first(), m)
    }
}

/// What the layers of `stack`, searched from the top down, map `code` to.
pub open spec fn layer_lookup(defs: Seq<LayerDefinition>, stack: Seq<LayerItem>, code: u16) -> Option<KeyAction>
    decreases stack.len(),
{
    if stack.len() == 0 {
        None
    } else {
        let below = layer_lookup(defs, stack.drop_last(), code);
        match definition_of(defs, stack.last().modifier) {
            Some(d) => match first_entry(d.keys@, code) {
                Some(a) => Some(a),
                None => below,
            },
            None => below,
        }
    }
}

/// `action` as the layers of `stack` rewrite it.
pub open spec fn layered_action(defs: Seq<LayerDefinition>, stack: Seq<LayerItem>, action: KeyAction) -> KeyAction {
    match action {
        KeyAction::KeyCode(c) => match layer_lookup(defs, stack, c.0) {
            Some(a) => a,
            None => action,
        },
        KeyAction::Macro(_) => action,
    }
}

/// The topmost layer of `stack` whose kind is one-shot.
pub open spec fn topmost_oneshot(defs: Seq<LayerDefinition>, stack: Seq<LayerItem>) -> Option<LayerItem>
    decreases stack.len(),
{
    if stack.len() == 0 {
        None
    } else if definition_of(defs, stack.last().modifier) matches Some(d) && d.modifier.kind_spec()
        == LayerModifierKind::Oneshoot {
        Some(stack.last())
    } else {
        topmost_oneshot(defs, stack.drop_last())
    }
}

/// The topmost layer of `stack` that was pushed while `m`'s layer was on top.
pub open spec fn topmost_dependent(stack: Seq<LayerItem>, m: u16) -> Option<LayerItem>
    decreases stack.len(),
{
    if stack.len() == 0 {
        None
    } else if stack.last().base_layer == Some(m) {
        Some(stack.last())
    } else {
        topmost_dependent(stack.drop_last(), m)
    }
}

/// `j` is the first item of `s` with modifier `m`.
pub open spec fn first_item_at(s: Seq<LayerItem>, m: u16, j: int) -> bool {
    0 <= j < s.len() && s[j].modifier == m && forall|i: int| 0 <= i < j ==> #[trigger] s[i].modifier != m
}

pub open spec fn stack_has(stack: Seq<LayerItem>, m: u16) -> bool {
    exists|i: int| 0 <= i < stack.len() && #[trigger] stack[i].modifier == m
}

/// When layer `top` is on top of the stack and `x` is pressed, the action is
/// the layer's own entry for `x` where it has one, and otherwise what the
/// layers below (down to the base action) give.
pub proof fn lemma_layer_composition(
    defs: Seq<LayerDefinition>,
    stack: Seq<LayerItem>,
    top: LayerItem,
    def: LayerDefinition,
    base: KeyAction,
    x: KeyCode,
)
    requires
        definition_of(defs, top.modifier) == Some(def),
        base == KeyAction::KeyCode(x),
    ensures
        first_entry(def.keys@, x.0) matches Some(a) ==> layered_action(defs, stack.push(top), base) == a,
        first_entry(def.keys@, x.0) is None ==> layered_action(defs, stack.push(top), base)
            == layered_action(defs, stack, base),
{
    assert(stack.push(top).drop_last() =~= stack);
    assert(stack.push(top).last() == top);
}

/// The stack of active modal layers.
#[derive(Debug)]
pub struct LayerManager {
    layer_map: Vec<LayerDefinition>,
    layer_stack: LayerList,
    pending: LayerList,
}

/// Removes every item with modifier `m`.
fn remove_modifier(v: &mut Vec<LayerItem>, m: u16)
    ensures
        forall|x: LayerItem| final(v)@.contains(x) <==> old(v)@.contains(x) && x.modifier != m,
        !stack_has(final(v)@, m),
        final(v)@.len() <= old(v)@.len(),
        stack_has(old(v)@, m) ==> final(v)@.len() < old(v)@.len(),
        !stack_has(old(v)@, m) ==> final(v)@ == old(v)@,
{
    let mut kept: Vec<LayerItem> = Vec::new();
    let mut i: usize = 0;
    let mut dropped = false;
    while i < v.len()
        invariant
            i <= v@.len(),
            kept@.len() <= i,
            dropped ==> kept@.len() < i,
            dropped <==> exists|j: int| 0 <= j < i && #[trigger] v@[j].modifier == m,
            !dropped ==> kept@ =~= v@.subrange(0, i as int),
            forall|j: int| 0 <= j < kept@.len() ==> #[trigger] kept@[j].modifier != m,
            forall|x: LayerItem| kept@.contains(x) <==> (exists|j: int| 0 <= j < i && v@[j] == x) && x.modifier != m,
        decreases v.len() - i,
    {
        let it = v[i];
        let ghost before = kept@;
        if it.modifier != m {
            kept.push(it);
        } else {
            dropped = true;
        }
        assert forall|x: LayerItem| kept@.contains(x) <==> (exists|j: int| 0 <= j < i + 1 && v@[j] == x) && x.modifier != m by {
            if kept@.contains(x) {
                let k = choose|k: int| 0 <= k < kept@.len() && kept@[k] == x;
                if k < before.len() {
                    assert(before[k] == x);
                    assert(before.contains(x));
                } else {
                    assert(v@[i as int] == x);
                }
            }
            if (exists|j: int| 0 <= j < i + 1 && v@[j] == x) && x.modifier != m {
                let j = choose|j: int| 0 <= j < i + 1 && v@[j] == x;
                if j == i {
                    assert(kept@[kept@.len() - 1] == x);
                } else {
                    assert(before.contains(x));
                    let k = choose|k: int| 0 <= k < before.len() && before[k] == x;
                    assert(kept@[k] == x);
                }
            }
        }
        i = i + 1;
    }
    assert(!dropped ==> kept@ =~= v@);
    *v = kept;
}

impl LayerManager {
    pub closed spec fn definitions(&self) -> Seq<LayerDefinition> {
        self.layer_map@
    }

    pub closed spec fn stack(&self) -> Seq<LayerItem> {
        listed_layers(self.layer_stack)
    }

    pub closed spec fn pending_releases(&self) -> Seq<LayerItem> {
        listed_layers(self.pending)
    }

    pub open spec fn is_active(&self, m: u16) -> bool {
        stack_has(self.stack(), m)
    }

    /// The item that pushing `m` onto `stack` adds.
    pub open spec fn pushed_item(stack: Seq<LayerItem>, m: u16) -> LayerItem {
        LayerItem {
            modifier: m,
            base_layer: if stack.len() == 0 { None } else { Some(stack.last().modifier) },
        }
    }

    pub fn new(definitions: Vec<LayerDefinition>) -> (r: Self)
        ensures
            r.definitions() == definitions@,
            r.stack().len() == 0,
            r.pending_releases().len() == 0,
    {
        LayerManager { layer_map: definitions, layer_stack: layers_new(), pending: layers_new() }
    }

    fn find_definition(&self, m: u16) -> (r: Option<usize>)
        ensures
            r is None <==> definition_of(self.definitions(), m) is None,
            r matches Some(i) ==> i < self.definitions().len()
                && definition_of(self.definitions(), m) == Some(self.definitions()[i as int]),
    {
        let mut i: usize = 0;
        assert(self.layer_map@.subrange(0, self.layer_map@.len() as int) =~= self.layer_map@);
        while i < self.layer_map.len()
            invariant
                i <= self.layer_map@.len(),
                definition_of(self.layer_map@, m) == definition_of(self.layer_map@.subrange(i as int, self.layer_map@.len() as int), m),
            decreases self.layer_map.len() - i,
        {
            let ghost rest = self.layer_map@.subrange(i as int, self.layer_map@.len() as int);
            assert(rest.drop_first() =~= self.layer_map@.subrange(i + 1, self.layer_map@.len() as int));
            if self.layer_map[i].modifier.get_modifer().0 == m {
                return Some(i);
            }
            i = i + 1;
        }
        assert(self.layer_map@.subrange(i as int, self.layer_map@.len() as int) =~= Seq::<LayerDefinition>::empty());
        None
    }

    /// What the active layers, searched from the top down, map `code` to.
    fn lookup(&self, code: u16) -> (r: Option<KeyAction>)
        ensures
            r == layer_lookup(self.definitions(), self.stack(), code),
    {
        let stack = layers_items(&self.layer_stack);
        let mut i: usize = stack.len();
        assert(stack@.subrange(0, stack@.len() as int) =~= stack@);
        while i > 0
            invariant
                stack@ == self.stack(),
                i <= stack@.len(),
                layer_lookup(self.layer_map@, stack@, code)
                    == layer_lookup(self.layer_map@, stack@.subrange(0, i as int), code),
            decreases i,
        {
            let ghost pre = stack@.subrange(0, i as int);
            assert(pre.drop_last() =~= stack@.subrange(0, i - 1));
            let item = stack[i - 1];
            assert(pre.last() == item);
            if let Some(d) = self.find_definition(item.modifier) {
                if let Some(a) = find_entry(&self.layer_map[d].keys, code) {
                    return Some(a);
                }
            }
            i = i - 1;
        }
        assert(stack@.subrange(0, 0) =~= Seq::<LayerItem>::empty());
        None
    }

    /// Rewrites a key code through the active layers, from the top down.
    pub fn map(&self, action: KeyAction) -> (r: KeyAction)
        ensures
            r == layered_action(self.definitions(), self.stack(), action),
    {
        match action {
            KeyAction::KeyCode(c) => match self.lookup(c.0) {
                Some(a) => a,
                None => action,
            },
            KeyAction::Macro(_) => action,
        }
    }

    fn is_layer_active(&self, modifier: u16) -> (r: bool)
        ensures
            r == self.is_active(modifier),
    {
        let stack = layers_items(&self.layer_stack);
        let mut i: usize = 0;
        while i < stack.len()
            invariant
                stack@ == self.stack(),
                i <= stack@.len(),
                forall|j: int| 0 <= j < i ==> #[trigger] stack@[j].modifier != modifier,
            decreases stack.len() - i,
        {
            if stack[i].modifier == modifier {
                return true;
            }
            i = i + 1;
        }
        false
    }

    fn push_layer(&mut self, modifier: u16)
        ensures
            final(self).stack() == old(self).stack().push(Self::pushed_item(old(self).stack(), modifier)),
            final(self).definitions() == old(self).definitions(),
            final(self).pending_releases() == old(self).pending_releases(),
    {
        let stack = layers_items(&self.layer_stack);
        let base_layer = if stack.len() == 0 {
            None
        } else {
            Some(stack[stack.len() - 1].modifier)
        };
        layers_push(&mut self.layer_stack, LayerItem { modifier, base_layer });
    }

    fn find_pending_layer(&self, modifier: u16) -> (r: Option<LayerItem>)
        ensures
            r is None <==> !stack_has(self.pending_releases(), modifier),
            r matches Some(it) ==> it.modifier == modifier && self.pending_releases().contains(it),
            r matches Some(it) ==> exists|j: int| #[trigger] first_item_at(self.pending_releases(), modifier, j)
                && self.pending_releases()[j] == it,
    {
        let pending = layers_items(&self.pending);
        let mut i: usize = 0;
        while i < pending.len()
            invariant
                pending@ == self.pending_releases(),
                i <= pending@.len(),
                forall|j: int| 0 <= j < i ==> #[trigger] pending@[j].modifier != modifier,
            decreases pending.len() - i,
        {
            if pending[i].modifier == modifier {
                assert(first_item_at(self.pending_releases(), modifier, i as int));
                return Some(pending[i]);
            }
            i = i + 1;
        }
        None
    }

    /// Takes `modifier`'s layer off the stack; where a release of it was held
    /// back, also the layer that it depended on.
    fn pop_layer(&mut self, modifier: u16)
        ensures
            !final(self).is_active(modifier),
            forall|m: u16| final(self).is_active(m) ==> old(self).is_active(m),
            final(self).definitions() == old(self).definitions(),
            final(self).pending_releases().len() <= old(self).pending_releases().len(),
            !stack_has(old(self).pending_releases(), modifier) ==> final(self).pending_releases() == old(self).pending_releases()
                && forall|x: LayerItem| #[trigger] final(self).stack().contains(x) <==> old(self).stack().contains(x) && x.modifier != modifier,
            forall|j: int| #[trigger] first_item_at(old(self).pending_releases(), modifier, j)
                && old(self).pending_releases()[j].base_layer is Some
                ==> !final(self).is_active(old(self).pending_releases()[j].base_layer->Some_0),
            !stack_has(final(self).pending_releases(), modifier),
            forall|x: LayerItem| #[trigger] final(self).pending_releases().contains(x) ==> old(self).pending_releases().contains(x),
        decreases old(self).pending_releases().len(),
    {
        let ghost start = self.stack();
        if let Some(item) = self.find_pending_layer(modifier) {
            let mut pending = layers_to_vec(&self.pending);
            remove_modifier(&mut pending, modifier);
            self.pending = layers_from_vec(&pending);
            let ghost removed = self.pending_releases();
            if let Some(base) = item.base_layer {
                self.pop_layer(base);
            }
            proof {
                if stack_has(self.pending_releases(), modifier) {
                    let i = choose|i: int| 0 <= i < self.pending_releases().len()
                        && #[trigger] self.pending_releases()[i].modifier == modifier;
                    let x = self.pending_releases()[i];
                    assert(self.pending_releases().contains(x));
                    assert(removed.contains(x));
                }
            }
        }
        assert forall|m: u16| #[trigger] stack_has(self.stack(), m) implies stack_has(start, m) by {
            assert(self.is_active(m));
        }
        let ghost mid = self.stack();
        let mut stack = layers_to_vec(&self.layer_stack);
        remove_modifier(&mut stack, modifier);
        self.layer_stack = layers_from_vec(&stack);
        assert forall|m: u16| stack_has(self.stack(), m) implies stack_has(mid, m) by {
            let i = choose|i: int| 0 <= i < self.stack().len() && #[trigger] self.stack()[i].modifier == m;
            assert(self.stack().contains(self.stack()[i]));
            assert(mid.contains(self.stack()[i]));
        }
        assert forall|m: u16| #[trigger] stack_has(self.stack(), m) implies stack_has(start, m) by {
            assert(stack_has(mid, m));
        }
    }

    /// The topmost layer above `modifier`'s that was pushed while it was on top.
    fn find_dependent_layer(&self, modifier: u16) -> (r: Option<LayerItem>)
        ensures
            r == topmost_dependent(self.stack(), modifier),
    {
        let stack = layers_items(&self.layer_stack);
        let mut i: usize = stack.len();
        assert(stack@.subrange(0, stack@.len() as int) =~= stack@);
        while i > 0
            invariant
                stack@ == self.stack(),
                i <= stack@.len(),
                topmost_dependent(stack@, modifier)
                    == topmost_dependent(stack@.subrange(0, i as int), modifier),
            decreases i,
        {
            let ghost pre = stack@.subrange(0, i as int);
            assert(pre.drop_last() =~= stack@.subrange(0, i - 1));
            let it = stack[i - 1];
            assert(pre.last() == it);
            if it.base_layer == Some(modifier) {
                return Some(it);
            }
            i = i - 1;
        }
        assert(stack@.subrange(0, 0) =~= Seq::<LayerItem>::empty());
        None
    }

    fn is_oneshoot_layer(&self, modifier: u16) -> (r: bool)
        ensures
            r == (definition_of(self.definitions(), modifier) matches Some(d)
                && d.modifier.kind_spec() == LayerModifierKind::Oneshoot),
    {
        match self.find_definition(modifier) {
            Some(d) => self.layer_map[d].modifier.get_modifer_kind() == LayerModifierKind::Oneshoot,
            None => false,
        }
    }

    /// The topmost one-shot layer on the stack.
    fn get_oneshoot_layer(&self) -> (r: Option<LayerItem>)
        ensures
            r == topmost_oneshot(self.definitions(), self.stack()),
    {
        let stack = layers_items(&self.layer_stack);
        let mut i: usize = stack.len();
        assert(stack@.subrange(0, stack@.len() as int) =~= stack@);
        while i > 0
            invariant
                stack@ == self.stack(),
                i <= stack@.len(),
                topmost_oneshot(self.layer_map@, stack@)
                    == topmost_oneshot(self.layer_map@, stack@.subrange(0, i as int)),
            decreases i,
        {
            let ghost pre = stack@.subrange(0, i as int);
            assert(pre.drop_last() =~= stack@.subrange(0, i - 1));
            let it = stack[i - 1];
            assert(pre.last() == it);
            if self.is_oneshoot_layer(it.modifier) {
                return Some(it);
            }
            i = i - 1;
        }
        assert(stack@.subrange(0, 0) =~= Seq::<LayerItem>::empty());
        None
    }

    /// A press of a layer modifier pushes its layer, or toggles a toggle
    /// layer; other codes are no layer event.
    pub fn handle_press(&mut self, code: u16) -> (r: Option<InputResult>)
        ensures
            final(self).definitions() == old(self).definitions(),
            definition_of(old(self).definitions(), code) is None ==> r is None && *final(self) == *old(self),
            definition_of(old(self).definitions(), code) matches Some(d) ==> {
                &&& r == Some(InputResult::Nothing)
                &&& !old(self).is_active(code) ==> final(self).stack()
                    == old(self).stack().push(Self::pushed_item(old(self).stack(), code))
                &&& old(self).is_active(code) && d.modifier.kind_spec() == LayerModifierKind::Toggle
                    ==> !final(self).is_active(code)
                &&& old(self).is_active(code) && d.modifier.kind_spec() == LayerModifierKind::Toggle
                    && !stack_has(old(self).pending_releases(), code)
                    ==> final(self).pending_releases() == old(self).pending_releases()
                        && forall|x: LayerItem| #[trigger] final(self).stack().contains(x) <==> old(self).stack().contains(x)
                            && x.modifier != code
                &&& old(self).is_active(code) && d.modifier.kind_spec() != LayerModifierKind::Toggle
                    ==> final(self).stack() == old(self).stack()
            },
    {
        match self.find_definition(code) {
            Some(d) => {
                let kind = self.layer_map[d].modifier.get_modifer_kind();
                let active = self.is_layer_active(code);
                if active {
                    if kind == LayerModifierKind::Toggle {
                        self.pop_layer(code);
                    }
                } else {
                    self.push_layer(code);
                }
                Some(InputResult::Nothing)
            },
            None => None,
        }
    }

    /// Auto-repeat of an active modifier is absorbed.
    pub fn handle_hold(&mut self, code: u16) -> (r: Option<InputResult>)
        ensures
            *final(self) == *old(self),
            old(self).is_active(code) ==> r == Some(InputResult::Nothing),
            !old(self).is_active(code) ==> r is None,
    {
        if self.is_layer_active(code) {
            Some(InputResult::Nothing)
        } else {
            None
        }
    }

    /// A momentary modifier's release pops its layer, or is held back while a
    /// layer pushed on top of it is active; a release of any other key pops
    /// the topmost one-shot layer.
    pub fn handle_release(&mut self, code: u16) -> (r: Option<InputResult>)
        ensures
            final(self).definitions() == old(self).definitions(),
            forall|m: u16| final(self).is_active(m) ==> old(self).is_active(m),
            definition_of(old(self).definitions(), code) matches Some(d) ==> {
                &&& r == Some(InputResult::Nothing)
                &&& d.modifier.kind_spec() != LayerModifierKind::Momentary ==> final(self).stack() == old(self).stack()
                &&& d.modifier.kind_spec() == LayerModifierKind::Momentary
                    && topmost_dependent(old(self).stack(), code) is None ==> !final(self).is_active(code)
                        && !stack_has(final(self).pending_releases(), code)
                        && forall|j: int| #[trigger] first_item_at(old(self).pending_releases(), code, j)
                            && old(self).pending_releases()[j].base_layer is Some
                            ==> !final(self).is_active(old(self).pending_releases()[j].base_layer->Some_0)
                &&& d.modifier.kind_spec() == LayerModifierKind::Momentary
                    && topmost_dependent(old(self).stack(), code) is Some ==> final(self).stack() == old(self).stack()
                    && final(self).pending_releases() == old(self).pending_releases().push(
                        topmost_dependent(old(self).stack(), code)->Some_0,
                    )
            },
            definition_of(old(self).definitions(), code) is None ==> {
                &&& r is None
                &&& topmost_oneshot(old(self).definitions(), old(self).stack()) is None
                    ==> final(self).stack() == old(self).stack()
                &&& topmost_oneshot(old(self).definitions(), old(self).stack()) is Some ==> !final(self).is_active(
                    topmost_oneshot(old(self).definitions(), old(self).stack())->Some_0.modifier,
                )
                &&& topmost_oneshot(old(self).definitions(), old(self).stack()) is Some && !stack_has(
                    old(self).pending_releases(),
                    topmost_oneshot(old(self).definitions(), old(self).stack())->Some_0.modifier,
                ) ==> forall|x: LayerItem| #[trigger] final(self).stack().contains(x) <==> old(self).stack().contains(x)
                    && x.modifier != topmost_oneshot(old(self).definitions(), old(self).stack())->Some_0.modifier
            },
    {
        match self.find_definition(code) {
            Some(d) => {
                if self.layer_map[d].modifier.get_modifer_kind() == LayerModifierKind::Momentary {
                    match self.find_dependent_layer(code) {
                        Some(dependent) => {
                            layers_push(&mut self.pending, dependent);
                        },
                        None => {
                            self.pop_layer(code);
                        },
                    }
                }
                Some(InputResult::Nothing)
            },
            None => {
                if let Some(layer) = self.get_oneshoot_layer() {
                    self.pop_layer(layer.modifier);
                }
                None
            },
        }
    }
}

} // verus!
