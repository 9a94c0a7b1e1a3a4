//! Signal numbers and the set of signals a process has pending or masked.
use vstd::prelude::*;

verus! {

/// The highest signal number.
pub const MAX_SIG: usize = 31;

pub const SIGDEF: u32 = 1;
pub const SIGHUP: u32 = 1 << 1;
pub const SIGINT: u32 = 1 << 2;
pub const SIGQUIT: u32 = 1 << 3;
pub const SIGILL: u32 = 1 << 4;
pub const SIGTRAP: u32 = 1 << 5;
pub const SIGABRT: u32 = 1 << 6;
pub const SIGBUS: u32 = 1 << 7;
pub const SIGFPE: u32 = 1 << 8;
pub const SIGKILL: u32 = 1 << 9;
pub const SIGUSR1: u32 = 1 << 10;
pub const SIGSEGV: u32 = 1 << 11;
pub const SIGUSR2: u32 = 1 << 12;
pub const SIGPIPE: u32 = 1 << 13;
pub const SIGALRM: u32 = 1 << 14;
pub const SIGTERM: u32 = 1 << 15;
pub const SIGSTKFLT: u32 = 1 << 16;
pub const SIGCHLD: u32 = 1 << 17;
pub const SIGCONT: u32 = 1 << 18;
pub const SIGSTOP: u32 = 1 << 19;
pub const SIGTSTP: u32 = 1 << 20;
pub const SIGTTIN: u32 = 1 << 21;
pub const SIGTTOU: u32 = 1 << 22;
pub const SIGURG: u32 = 1 << 23;
pub const SIGXCPU: u32 = 1 << 24;
pub const SIGXFSZ: u32 = 1 << 25;
pub const SIGVTALRM: u32 = 1 << 26;
pub const SIGPROF: u32 = 1 << 27;
pub const SIGWINCH: u32 = 1 << 28;
pub const SIGIO: u32 = 1 << 29;
pub const SIGPWR: u32 = 1 << 30;
pub const SIGSYS: u32 = 1 << 31;

/// Every bit of a `u32` names a signal.
pub const ALL_SIGNALS: u32 = 0xffff_ffff;

/// The bit of signal number `sig`.
pub open spec fn sig_bit(sig: u32) -> u32 {
    1u32 << sig
}

/// A set of signals, one bit per signal number.
#[derive(Clone, Copy, PartialEq, Eq, Structural, Debug)]
pub struct SignalFlags {
    pub bits: u32,
}

impl SignalFlags {
    /// Whether signal number `sig` is in the set.
    pub open spec fn has(self, sig: u32) -> bool {
        self.bits & sig_bit(sig) == sig_bit(sig)
    }

    pub fn empty() -> (ret: SignalFlags)
        ensures
            ret.bits == 0,
    {
        SignalFlags { bits: 0 }
    }

    /// The set with the given bits; `None` when a bit names no signal,
    /// which no bit of a `u32` does.
    pub fn from_bits(bits: u32) -> (ret: Option<SignalFlags>)
        ensures
            ret == Some(SignalFlags { bits }),
    {
        if bits & !ALL_SIGNALS == 0 {
            Some(SignalFlags { bits })
        } else {
            assert(bits & !0xffff_ffffu32 == 0) by (bit_vector);
            None
        }
    }

    pub fn bits(&self) -> (ret: u32)
        ensures
            ret == self.bits,
    {
        self.bits
    }

    /// Whether every signal of `other` is in `self`.
    pub fn contains(&self, other: SignalFlags) -> (ret: bool)
        ensures
            ret == (self.bits & other.bits == other.bits),
    {
        self.bits & other.bits == other.bits
    }

    /// Adds the signals of `other`.
    pub fn insert(&mut self, other: SignalFlags)
        ensures
            final(self).bits == old(self).bits | other.bits,
    {
        self.bits = self.bits | other.bits;
    }

    /// Flips the signals of `other`: those present leave, the others come.
    pub fn toggle(&mut self, other: SignalFlags)
        ensures
            final(self).bits == old(self).bits ^ other.bits,
    {
        self.bits = self.bits ^ other.bits;
    }

    /// The exit code of the first fatal signal in the set, in the order
    /// SIGINT, SIGILL, SIGABRT, SIGFPE, SIGKILL, SIGSEGV: minus the signal number.
    pub open spec fn error_code(self) -> Option<i32> {
        if self.has(2) {
            Some(-2i32)
        } else if self.has(4) {
            Some(-4i32)
        } else if self.has(6) {
            Some(-6i32)
        } else if self.has(8) {
            Some(-8i32)
        } else if self.has(9) {
            Some(-9i32)
        } else if self.has(11) {
            Some(-11i32)
        } else {
            None
        }
    }

    /// The message that goes with `error_code`.
    pub open spec fn error_message(self) -> Seq<char> {
        if self.has(2) {
            "Killed, SIGINT=2"@
        } else if self.has(4) {
            "Illegal Instruction, SIGILL=4"@
        } else if self.has(6) {
            "Aborted, SIGABRT=6"@
        } else if self.has(8) {
            "Erroneous Arithmetic Operation, SIGFPE=8"@
        } else if self.has(9) {
            "Killed, SIGKILL=9"@
        } else {
            "Segmentation Fault, SIGSEGV=11"@
        }
    }

    pub fn check_error(&self) -> (ret: Option<(i32, &'static str)>)
        ensures
            match ret {
                Some((code, msg)) => self.error_code() == Some(code) && msg@ == self.error_message(),
                None => self.error_code() is None,
            },
    {
        assert(SIGINT == sig_bit(2) && SIGILL == sig_bit(4) && SIGABRT == sig_bit(6)
            && SIGFPE == sig_bit(8) && SIGKILL == sig_bit(9) && SIGSEGV == sig_bit(11))
            by (bit_vector);
        if self.contains(SignalFlags { bits: SIGINT }) {
            Some((-2, "Killed, SIGINT=2"))
        } else if self.contains(SignalFlags { bits: SIGILL }) {
            Some((-4, "Illegal Instruction, SIGILL=4"))
        } else if self.contains(SignalFlags { bits: SIGABRT }) {
            Some((-6, "Aborted, SIGABRT=6"))
        } else if self.contains(SignalFlags { bits: SIGFPE }) {
            Some((-8, "Erroneous Arithmetic Operation, SIGFPE=8"))
        } else if self.contains(SignalFlags { bits: SIGKILL }) {
            Some((-9, "Killed, SIGKILL=9"))
        } else if self.contains(SignalFlags { bits: SIGSEGV }) {
            Some((-11, "Segmentation Fault, SIGSEGV=11"))
        } else {
            None
        }
    }
}

} // verus!
