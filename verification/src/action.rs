//! What a process asks to happen when a signal arrives.
use vstd::prelude::*;
use crate::signal::SignalFlags;

verus! {

/// The user handler of a signal (0 for none) and the signals masked while it runs.
#[derive(Clone, Copy, PartialEq, Eq, Structural, Debug)]
pub struct SignalAction {
    pub handler: usize,
    pub mask: SignalFlags,
}

/// The mask of a fresh action: SIGQUIT and SIGTRAP.
pub const DEFAULT_ACTION_MASK: u32 = 40;

impl Default for SignalAction {
    fn default() -> (ret: SignalAction)
        ensures
            ret.handler == 0,
            ret.mask.bits == DEFAULT_ACTION_MASK,
    {
        SignalAction { handler: 0, mask: SignalFlags { bits: DEFAULT_ACTION_MASK } }
    }
}

/// One action per signal number, `0..=MAX_SIG`.
#[derive(Clone, Copy)]
pub struct SignalActions {
    pub table: [SignalAction; 32],
}

impl SignalActions {
    /// Whether every entry is the fresh action.
    pub open spec fn is_default(self) -> bool {
        forall|i: int|
            0 <= i < 32 ==> (#[trigger] self.table@[i]).handler == 0
                && self.table@[i].mask.bits == DEFAULT_ACTION_MASK
    }
}

impl Default for SignalActions {
    fn default() -> (ret: SignalActions)
        ensures
            ret.is_default(),
    {
        let a = SignalAction { handler: 0, mask: SignalFlags { bits: DEFAULT_ACTION_MASK } };
        SignalActions { table: [a; 32] }
    }
}

} // verus!
