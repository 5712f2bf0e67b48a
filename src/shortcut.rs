use vstd::prelude::*;

verus! {

/// A shortcut definition.
pub enum Shortcut {
    /// Fires on every press while all of these keys are held.
    Combination(Vec<u64>),
    /// Fires when `key` is pressed twice in a row, the second press at most
    /// `timeout` milliseconds after the first.
    Succession { key: u64, timeout: u64 },
}

/// Why a registration was rejected.
#[derive(Debug, Clone, Copy, PartialEq, Eq, Structural)]
pub enum RegistrationError {
    /// A combination must name at least one key.
    EmptyCombination,
    /// A succession's timeout must be strictly positive.
    ZeroTimeout,
}

/// One transition of a physical key, stamped with a monotonic time in
/// milliseconds.
#[derive(Debug, Clone, Copy, PartialEq, Eq, Structural)]
pub enum KeyEvent {
    Press { key: u64, time: u64 },
    Release { key: u64, time: u64 },
}

impl Shortcut {
    /// The set of keys of a combination.
    pub open spec fn key_set(self) -> Set<u64> {
        match self {
            Shortcut::Combination(keys) => keys@.to_set(),
            Shortcut::Succession { .. } => Set::empty(),
        }
    }

    /// A definition is valid when a combination names a key and a succession
    /// has a positive timeout.
    pub open spec fn valid(self) -> bool {
        match self {
            Shortcut::Combination(keys) => keys@.len() > 0,
            Shortcut::Succession { timeout, .. } => timeout > 0,
        }
    }
}

/// A combination fires when its keys are all held.
pub open spec fn combination_fires(keys: Set<u64>, held: Set<u64>) -> bool {
    keys.subset_of(held)
}

/// A succession on `skey` fires on a press of `key` at `time` when the press
/// recorded just before was of the same key, and at most `timeout`
/// milliseconds passed since then (a clock that went back counts as no time).
pub open spec fn succession_fires(
    skey: u64,
    timeout: u64,
    previous: Option<(u64, u64)>,
    key: u64,
    time: u64,
) -> bool {
    match previous {
        Some((last_key, last_time)) => key == skey && last_key == skey && time - last_time
            <= timeout,
        None => false,
    }
}

/// Whether the definition `s` fires on a press of `key` at `time`, given the
/// held set after the press and the press recorded before it.
pub open spec fn fires_on_press(
    s: Shortcut,
    held: Set<u64>,
    previous: Option<(u64, u64)>,
    key: u64,
    time: u64,
) -> bool {
    match s {
        Shortcut::Combination(keys) => combination_fires(keys@.to_set(), held),
        Shortcut::Succession { key: skey, timeout } => succession_fires(
            skey,
            timeout,
            previous,
            key,
            time,
        ),
    }
}

/// The indices below `n` of the combinations among `defs` that fire, in
/// increasing order.
pub open spec fn combination_hits(defs: Seq<Shortcut>, held: Set<u64>, n: nat) -> Seq<usize>
    decreases n,
{
    if n == 0 {
        Seq::empty()
    } else {
        let before = combination_hits(defs, held, (n - 1) as nat);
        let i = n - 1;
        match defs[i] {
            Shortcut::Combination(keys) => if combination_fires(keys@.to_set(), held) {
                before.push(i as usize)
            } else {
                before
            },
            Shortcut::Succession { .. } => before,
        }
    }
}

/// The indices below `n` of the successions among `defs` that fire on a press
/// of `key` at `time`, in increasing order.
pub open spec fn succession_hits(
    defs: Seq<Shortcut>,
    previous: Option<(u64, u64)>,
    key: u64,
    time: u64,
    n: nat,
) -> Seq<usize>
    decreases n,
{
    if n == 0 {
        Seq::empty()
    } else {
        let before = succession_hits(defs, previous, key, time, (n - 1) as nat);
        let i = n - 1;
        match defs[i] {
            Shortcut::Succession { key: skey, timeout } => if succession_fires(
                skey,
                timeout,
                previous,
                key,
                time,
            ) {
                before.push(i as usize)
            } else {
                before
            },
            Shortcut::Combination(_) => before,
        }
    }
}

/// What a press fires: first every combination that holds, then every
/// succession that holds, each group in registration order.
pub open spec fn fired_on_press(
    defs: Seq<Shortcut>,
    held: Set<u64>,
    previous: Option<(u64, u64)>,
    key: u64,
    time: u64,
) -> Seq<usize> {
    combination_hits(defs, held, defs.len()) + succession_hits(
        defs,
        previous,
        key,
        time,
        defs.len(),
    )
}

} // verus!
