use vstd::prelude::*;

use crate::shortcut::{
    combination_hits,
    fired_on_press,
    succession_fires,
    succession_hits,
    KeyEvent,
    RegistrationError,
    Shortcut,
};

verus! {

/// The shortcut registry together with the state of the keys: which keys are
/// held, and which key was pressed last and when.
pub struct KeyboardManager {
    shortcuts: Vec<Shortcut>,
    held: Vec<u64>,
    last_press: Option<(u64, u64)>,
}

impl KeyboardManager {
    /// The registered definitions, in registration order; a definition's
    /// handle is its index.
    pub closed spec fn registry(&self) -> Seq<Shortcut> {
        self.shortcuts@
    }

    /// The keys currently held.
    pub closed spec fn held_keys(&self) -> Set<u64> {
        self.held@.to_set()
    }

    /// The most recent press, as (key, time).
    pub closed spec fn last_press(&self) -> Option<(u64, u64)> {
        self.last_press
    }

    /// The held keys are kept without repetition, every definition is valid,
    /// and every handle fits a `usize`.
    pub closed spec fn wf(&self) -> bool {
        &&& self.shortcuts@.len() <= usize::MAX
        &&& self.held@.no_duplicates()
        &&& forall|i: int| 0 <= i < self.shortcuts@.len() ==> (#[trigger] self.shortcuts@[i]).valid()
    }

    /// What well-formedness says of the registry.
    pub proof fn lemma_wf_registry(&self)
        requires
            self.wf(),
        ensures
            self.registry().len() <= usize::MAX,
            forall|i: int| 0 <= i < self.registry().len() ==> (#[trigger] self.registry()[i]).valid(),
    {
    }

    /// An engine with no shortcuts, no key held and no press recorded.
    pub fn new() -> (r: Self)
        ensures
            r.wf(),
            r.registry() == Seq::<Shortcut>::empty(),
            r.held_keys() == Set::<u64>::empty(),
            r.last_press() is None,
    {
        let r = KeyboardManager { shortcuts: Vec::new(), held: Vec::new(), last_press: None };
        assert(r.held@.to_set() =~= Set::<u64>::empty());
        r
    }

    /// Whether `key` is held.
    fn is_held(&self, key: u64) -> (r: bool)
        ensures
            r == self.held_keys().contains(key),
    {
        let mut i: usize = 0;
        while i < self.held.len()
            invariant
                forall|j: int| 0 <= j < i ==> self.held@[j] != key,
            decreases self.held.len() - i,
        {
            if self.held[i] == key {
                return true;
            }
            i += 1;
        }
        false
    }

    /// Records `key` as held, and `(key, time)` as the last press; returns the
    /// press recorded before.
    fn on_press(&mut self, key: u64, time: u64) -> (previous: Option<(u64, u64)>)
        requires
            old(self).wf(),
        ensures
            final(self).wf(),
            previous == old(self).last_press(),
            final(self).held_keys() == old(self).held_keys().insert(key),
            final(self).last_press() == Some((key, time)),
            final(self).registry() == old(self).registry(),
    {
        if !self.is_held(key) {
            self.held.push(key);
            assert(self.held@.to_set() =~= old(self).held@.to_set().insert(key)) by {
                assert forall|x: u64| #[trigger] self.held@.contains(x) <==> (old(self).held@.contains(x) || x == key) by {
                    if old(self).held@.contains(x) {
                        let k = choose|k: int| 0 <= k < old(self).held@.len() && old(self).held@[k] == x;
                        assert(self.held@[k] == x);
                    }
                    if x == key {
                        assert(self.held@[self.held@.len() - 1] == x);
                    }
                }
            }
        } else {
            assert(self.held@.to_set() =~= old(self).held@.to_set().insert(key));
        }
        let previous = self.last_press;
        self.last_press = Some((key, time));
        previous
    }

    /// Records `key` as no longer held; a key that is not held is left alone.
    fn on_release(&mut self, key: u64)
        requires
            old(self).wf(),
        ensures
            final(self).wf(),
            final(self).held_keys() == old(self).held_keys().remove(key),
            final(self).last_press() == old(self).last_press(),
            final(self).registry() == old(self).registry(),
    {
        let mut i: usize = 0;
        while i < self.held.len()
            invariant
                self.wf(),
                self.held@ == old(self).held@,
                self.shortcuts@ == old(self).shortcuts@,
                self.last_press == old(self).last_press,
                forall|j: int| 0 <= j < i ==> self.held@[j] != key,
            decreases self.held.len() - i,
        {
            if self.held[i] == key {
                let ghost before = self.held@;
                self.held.remove(i);
                assert(self.held@ == before.remove(i as int));
                assert(self.held@.to_set() =~= before.to_set().remove(key)) by {
                    assert forall|x: u64| #[trigger] self.held@.contains(x) <==> (before.contains(x) && x != key) by {
                        if self.held@.contains(x) {
                            let k = choose|k: int| 0 <= k < self.held@.len() && self.held@[k] == x;
                            if k < i {
                                assert(before[k] == x);
                            } else {
                                assert(before[k + 1] == x);
                            }
                        }
                        if before.contains(x) && x != key {
                            let k = choose|k: int| 0 <= k < before.len() && before[k] == x;
                            if k < i {
                                assert(self.held@[k] == x);
                            } else {
                                assert(self.held@[k - 1] == x);
                            }
                        }
                    }
                }
                return;
            }
            i += 1;
        }
        assert(self.held@.to_set() =~= old(self).held@.to_set().remove(key));
    }

    /// Whether every key of `keys` is held.
    fn all_held(&self, keys: &Vec<u64>) -> (r: bool)
        ensures
            r == keys@.to_set().subset_of(self.held_keys()),
    {
        let mut i: usize = 0;
        while i < keys.len()
            invariant
                forall|j: int| 0 <= j < i ==> self.held_keys().contains(#[trigger] keys@[j]),
            decreases keys.len() - i,
        {
            if !self.is_held(keys[i]) {
                assert(keys@.to_set().contains(keys@[i as int]));
                return false;
            }
            i += 1;
        }
        assert forall|x: u64| keys@.to_set().contains(x) implies self.held_keys().contains(x) by {
            let k = choose|k: int| 0 <= k < keys@.len() && keys@[k] == x;
            assert(self.held_keys().contains(keys@[k]));
        }
        true
    }

    /// The handles of the combinations that hold over the current held set,
    /// in registration order.
    fn combinations_held(&self) -> (fired: Vec<usize>)
        ensures
            fired@ == combination_hits(self.registry(), self.held_keys(), self.registry().len()),
    {
        let mut fired: Vec<usize> = Vec::new();
        let mut i: usize = 0;
        while i < self.shortcuts.len()
            invariant
                i <= self.shortcuts@.len(),
                fired@ == combination_hits(self.registry(), self.held_keys(), i as nat),
            decreases self.shortcuts.len() - i,
        {
            match &self.shortcuts[i] {
                Shortcut::Combination(keys) => {
                    if self.all_held(keys) {
                        fired.push(i);
                    }
                },
                Shortcut::Succession { .. } => {},
            }
            i += 1;
        }
        fired
    }

    /// Appends to `fired` the handles of the successions that a press of
    /// `key` at `time` completes, given the press recorded before it, in
    /// registration order.
    fn push_successions(
        &self,
        previous: Option<(u64, u64)>,
        key: u64,
        time: u64,
        fired: &mut Vec<usize>,
    )
        ensures
            final(fired)@ == old(fired)@ + succession_hits(
                self.registry(),
                previous,
                key,
                time,
                self.registry().len(),
            ),
    {
        let ghost start = fired@;
        let mut i: usize = 0;
        while i < self.shortcuts.len()
            invariant
                i <= self.shortcuts@.len(),
                fired@ == start + succession_hits(self.registry(), previous, key, time, i as nat),
            decreases self.shortcuts.len() - i,
        {
            match &self.shortcuts[i] {
                Shortcut::Succession { key: skey, timeout } => {
                    let hit = match previous {
                        Some((last_key, last_time)) => key == *skey && last_key == *skey && (
                        time < last_time || time - last_time <= *timeout),
                        None => false,
                    };
                    assert(hit == succession_fires(*skey, *timeout, previous, key, time));
                    if hit {
                        fired.push(i);
                    }
                },
                Shortcut::Combination(_) => {},
            }
            proof {
                let ghost hits = succession_hits(self.registry(), previous, key, time, i as nat);
                assert(start + hits.push(i as usize) =~= (start + hits).push(i as usize));
            }
            i += 1;
        }
    }

    /// Processes one key event, in arrival order, and returns the handles of
    /// the shortcuts it fires, in the order in which their actions run.
    ///
    /// A press adds its key to the held set; then fires every combination whose
    /// keys are all held, then every succession that the press completes, each
    /// in registration order; then records the press as the last one. A release
    /// removes its key from the held set and fires nothing.
    pub fn process_event(&mut self, event: KeyEvent) -> (fired: Vec<usize>)
        requires
            old(self).wf(),
        ensures
            final(self).wf(),
            final(self).registry() == old(self).registry(),
            match event {
                KeyEvent::Press { key, time } => {
                    &&& final(self).held_keys() == old(self).held_keys().insert(key)
                    &&& final(self).last_press() == Some((key, time))
                    &&& fired@ == fired_on_press(
                        old(self).registry(),
                        old(self).held_keys().insert(key),
                        old(self).last_press(),
                        key,
                        time,
                    )
                },
                KeyEvent::Release { key, .. } => {
                    &&& final(self).held_keys() == old(self).held_keys().remove(key)
                    &&& final(self).last_press() == old(self).last_press()
                    &&& fired@.len() == 0
                },
            },
    {
        match event {
            KeyEvent::Press { key, time } => {
                let previous = self.on_press(key, time);
                let mut fired = self.combinations_held();
                self.push_successions(previous, key, time, &mut fired);
                fired
            },
            KeyEvent::Release { key, .. } => {
                self.on_release(key);
                Vec::new()
            },
        }
    }

    /// Appends a valid definition and returns its handle.
    fn append(&mut self, s: Shortcut) -> (h: usize)
        requires
            old(self).wf(),
            s.valid(),
        ensures
            final(self).wf(),
            h == old(self).registry().len(),
            final(self).registry() == old(self).registry().push(s),
            final(self).held_keys() == old(self).held_keys(),
            final(self).last_press() == old(self).last_press(),
    {
        let h = self.shortcuts.len();
        self.shortcuts.push(s);
        proof {
            vstd::std_specs::vec::axiom_spec_len(&self.shortcuts);
        }
        assert forall|i: int| 0 <= i < self.shortcuts@.len() implies (#[trigger] self.shortcuts@[i]).valid() by {
            if i < h {
                assert(self.shortcuts@[i] == old(self).shortcuts@[i]);
            }
        }
        h
    }

    /// Registers a combination of keys, to fire on every press while all of
    /// them are held. An empty list of keys is rejected.
    pub fn register_combination(&mut self, keys: Vec<u64>) -> (r: Result<usize, RegistrationError>)
        requires
            old(self).wf(),
        ensures
            final(self).wf(),
            final(self).held_keys() == old(self).held_keys(),
            final(self).last_press() == old(self).last_press(),
            keys@.len() == 0 ==> r == Err::<usize, RegistrationError>(
                RegistrationError::EmptyCombination,
            ) && final(self).registry() == old(self).registry(),
            keys@.len() > 0 ==> r == Ok::<usize, RegistrationError>(
                old(self).registry().len() as usize,
            ) && final(self).registry() == old(self).registry().push(Shortcut::Combination(keys)),
    {
        if keys.len() == 0 {
            return Err(RegistrationError::EmptyCombination);
        }
        Ok(self.append(Shortcut::Combination(keys)))
    }

    /// Registers a double press of `key`, the second press at most `timeout`
    /// milliseconds after the first. A zero timeout is rejected.
    pub fn register_succession(&mut self, key: u64, timeout: u64) -> (r: Result<
        usize,
        RegistrationError,
    >)
        requires
            old(self).wf(),
        ensures
            final(self).wf(),
            final(self).held_keys() == old(self).held_keys(),
            final(self).last_press() == old(self).last_press(),
            timeout == 0 ==> r == Err::<usize, RegistrationError>(RegistrationError::ZeroTimeout)
                && final(self).registry() == old(self).registry(),
            timeout > 0 ==> r == Ok::<usize, RegistrationError>(
                old(self).registry().len() as usize,
            ) && final(self).registry() == old(self).registry().push(
                Shortcut::Succession { key, timeout },
            ),
    {
        if timeout == 0 {
            return Err(RegistrationError::ZeroTimeout);
        }
        Ok(self.append(Shortcut::Succession { key, timeout }))
    }
}

} // verus!
