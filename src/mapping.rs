use crate::config::{find_entry, first_entry, KeyAction};
use crate::keycode::KeyCode;
use vstd::prelude::*;

verus! {

/// The action configured for `code` in a base-layer table, or the code itself.
pub open spec fn mapped_action(table: Seq<(KeyCode, KeyAction)>, code: u16) -> KeyAction {
    match first_entry(table, code) {
        Some(a) => a,
        None => KeyAction::KeyCode(KeyCode(code)),
    }
}

/// The static base-layer rewrite table.
#[derive(Debug)]
pub struct MappingManager {
    mappings: Vec<(KeyCode, KeyAction)>,
}

impl MappingManager {
    pub closed spec fn table(&self) -> Seq<(KeyCode, KeyAction)> {
        self.mappings@
    }

    pub fn new(mappings: Vec<(KeyCode, KeyAction)>) -> (r: Self)
        ensures
            r.table() == mappings@,
    {
        MappingManager { mappings }
    }

    /// The configured replacement for `code`, or `code` itself.
    pub fn map(&self, code: &u16) -> (r: KeyAction)
        ensures
            r == mapped_action(self.table(), *code),
    {
        match find_entry(&self.mappings, *code) {
            Some(a) => a,
            None => KeyAction::KeyCode(KeyCode(*code)),
        }
    }
}

} // verus!
