use vstd::prelude::*;

use crate::manager::KeyboardManager;
use crate::shortcut::{
    combination_fires,
    combination_hits,
    fired_on_press,
    fires_on_press,
    succession_fires,
    succession_hits,
    Shortcut,
};

verus! {

/// Whether the definition at `i` is a combination that holds over `held`.
pub open spec fn combination_at(defs: Seq<Shortcut>, held: Set<u64>, i: int) -> bool {
    match defs[i] {
        Shortcut::Combination(keys) => combination_fires(keys@.to_set(), held),
        Shortcut::Succession { .. } => false,
    }
}

/// Whether the definition at `i` is a succession that a press of `key` at
/// `time` completes.
pub open spec fn succession_at(
    defs: Seq<Shortcut>,
    previous: Option<(u64, u64)>,
    key: u64,
    time: u64,
    i: int,
) -> bool {
    match defs[i] {
        Shortcut::Succession { key: skey, timeout } => succession_fires(
            skey,
            timeout,
            previous,
            key,
            time,
        ),
        Shortcut::Combination(_) => false,
    }
}

proof fn lemma_combination_hits(defs: Seq<Shortcut>, held: Set<u64>, n: nat)
    requires
        n <= defs.len() <= usize::MAX,
    ensures
        forall|a: int, b: int|
            0 <= a < b < combination_hits(defs, held, n).len() ==> combination_hits(
                defs,
                held,
                n,
            )[a] < combination_hits(defs, held, n)[b],
        forall|k: int|
            0 <= k < combination_hits(defs, held, n).len() ==> combination_at(
                defs,
                held,
                combination_hits(defs, held, n)[k] as int,
            ) && combination_hits(defs, held, n)[k] < n,
        forall|i: int|
            0 <= i < n && combination_at(defs, held, i) ==> combination_hits(
                defs,
                held,
                n,
            ).contains(i as usize),
    decreases n,
{
    if n > 0 {
        lemma_combination_hits(defs, held, (n - 1) as nat);
        let before = combination_hits(defs, held, (n - 1) as nat);
        let h = combination_hits(defs, held, n);
        assert forall|i: int| 0 <= i < n && combination_at(defs, held, i) implies h.contains(
            i as usize,
        ) by {
            if i < n - 1 {
                let k = choose|k: int| 0 <= k < before.len() && before[k] == i as usize;
                assert(h[k] == i as usize);
            } else {
                assert(h[h.len() - 1] == i as usize);
            }
        }
    }
}

proof fn lemma_succession_hits(
    defs: Seq<Shortcut>,
    previous: Option<(u64, u64)>,
    key: u64,
    time: u64,
    n: nat,
)
    requires
        n <= defs.len() <= usize::MAX,
    ensures
        forall|a: int, b: int|
            0 <= a < b < succession_hits(defs, previous, key, time, n).len() ==> succession_hits(
                defs,
                previous,
                key,
                time,
                n,
            )[a] < succession_hits(defs, previous, key, time, n)[b],
        forall|k: int|
            0 <= k < succession_hits(defs, previous, key, time, n).len() ==> succession_at(
                defs,
                previous,
                key,
                time,
                succession_hits(defs, previous, key, time, n)[k] as int,
            ) && succession_hits(defs, previous, key, time, n)[k] < n,
        forall|i: int|
            0 <= i < n && succession_at(defs, previous, key, time, i) ==> succession_hits(
                defs,
                previous,
                key,
                time,
                n,
            ).contains(i as usize),
    decreases n,
{
    if n > 0 {
        lemma_succession_hits(defs, previous, key, time, (n - 1) as nat);
        let before = succession_hits(defs, previous, key, time, (n - 1) as nat);
        let h = succession_hits(defs, previous, key, time, n);
        assert forall|i: int|
            0 <= i < n && succession_at(defs, previous, key, time, i) implies h.contains(
            i as usize,
        ) by {
            if i < n - 1 {
                let k = choose|k: int| 0 <= k < before.len() && before[k] == i as usize;
                assert(h[k] == i as usize);
            } else {
                assert(h[h.len() - 1] == i as usize);
            }
        }
    }
}

/// A press fires exactly the definitions that hold on it, each one once: the
/// handle of a definition is among those fired if and only if the
/// definition fires on the press, and no handle is fired twice.
pub proof fn lemma_press_fires_each_match_once(
    defs: Seq<Shortcut>,
    held: Set<u64>,
    previous: Option<(u64, u64)>,
    key: u64,
    time: u64,
)
    requires
        defs.len() <= usize::MAX,
    ensures
        fired_on_press(defs, held, previous, key, time).no_duplicates(),
        forall|i: int|
            0 <= i < defs.len() ==> (fired_on_press(defs, held, previous, key, time).contains(
                i as usize,
            ) <==> fires_on_press(defs[i], held, previous, key, time)),
        forall|i: usize|
            #[trigger] fired_on_press(defs, held, previous, key, time).contains(i) ==> i
                < defs.len(),
{
    let c = combination_hits(defs, held, defs.len());
    let s = succession_hits(defs, previous, key, time, defs.len());
    let f = fired_on_press(defs, held, previous, key, time);
    lemma_combination_hits(defs, held, defs.len());
    lemma_succession_hits(defs, previous, key, time, defs.len());
    assert(f == c + s);
    assert forall|a: int, b: int| 0 <= a < f.len() && 0 <= b < f.len() && a != b implies f[a]
        != f[b] by {
        if a < c.len() && b >= c.len() {
            assert(combination_at(defs, held, f[a] as int));
            assert(succession_at(defs, previous, key, time, f[b] as int));
        } else if b < c.len() && a >= c.len() {
            assert(combination_at(defs, held, f[b] as int));
            assert(succession_at(defs, previous, key, time, f[a] as int));
        } else if a < c.len() {
            if a < b {
                assert(c[a] < c[b]);
            } else {
                assert(c[b] < c[a]);
            }
        } else {
            let a2 = a - c.len();
            let b2 = b - c.len();
            if a2 < b2 {
                assert(s[a2] < s[b2]);
            } else {
                assert(s[b2] < s[a2]);
            }
        }
    }
    assert forall|i: int| 0 <= i < defs.len() implies (f.contains(i as usize) <==> fires_on_press(
        defs[i],
        held,
        previous,
        key,
        time,
    )) by {
        if fires_on_press(defs[i], held, previous, key, time) {
            if combination_at(defs, held, i) {
                let k = choose|k: int| 0 <= k < c.len() && c[k] == i as usize;
                assert(f[k] == i as usize);
            } else {
                assert(succession_at(defs, previous, key, time, i));
                let k = choose|k: int| 0 <= k < s.len() && s[k] == i as usize;
                assert(f[c.len() + k] == i as usize);
            }
        }
        if f.contains(i as usize) {
            let k = choose|k: int| 0 <= k < f.len() && f[k] == i as usize;
            if k < c.len() {
                assert(combination_at(defs, held, c[k] as int));
            } else {
                assert(succession_at(defs, previous, key, time, s[k - c.len()] as int));
            }
        }
    }
    assert forall|i: usize| #[trigger] f.contains(i) implies i < defs.len() by {
        let k = choose|k: int| 0 <= k < f.len() && f[k] == i;
        if k < c.len() {
            assert(c[k] < defs.len());
        } else {
            assert(s[k - c.len()] < defs.len());
        }
    }
}

/// A combination is level-triggered: on every press after which all of its
/// keys are held, its handle is among those that the press fires, and only
/// once. So it fires again on each further press while its keys stay held,
/// not only on the press that completed it.
pub proof fn lemma_combination_fires_on_every_qualifying_press(
    m: KeyboardManager,
    h: usize,
    key: u64,
    time: u64,
)
    requires
        m.wf(),
        h < m.registry().len(),
        m.registry()[h as int] is Combination,
        m.registry()[h as int].key_set().subset_of(m.held_keys().insert(key)),
    ensures
        fired_on_press(m.registry(), m.held_keys().insert(key), m.last_press(), key, time).contains(
            h,
        ),
        fired_on_press(
            m.registry(),
            m.held_keys().insert(key),
            m.last_press(),
            key,
            time,
        ).no_duplicates(),
{
    m.lemma_wf_registry();
    lemma_press_fires_each_match_once(
        m.registry(),
        m.held_keys().insert(key),
        m.last_press(),
        key,
        time,
    );
}

/// A succession on `skey` with timeout `timeout` fires on a press if and only
/// if the press is of `skey`, the press recorded just before it was of `skey`
/// too (any press of another key in between replaces that record), and at most
/// `timeout` milliseconds passed between the two.
pub proof fn lemma_succession_fires_iff_double_press_in_time(
    m: KeyboardManager,
    h: usize,
    skey: u64,
    timeout: u64,
    key: u64,
    time: u64,
)
    requires
        m.wf(),
        h < m.registry().len(),
        m.registry()[h as int] == (Shortcut::Succession { key: skey, timeout }),
    ensures
        fired_on_press(m.registry(), m.held_keys().insert(key), m.last_press(), key, time).contains(
            h,
        ) <==> (exists|last_time: u64|
            m.last_press() == Some((skey, last_time)) && key == skey && time - last_time
                <= timeout),
{
    m.lemma_wf_registry();
    lemma_press_fires_each_match_once(
        m.registry(),
        m.held_keys().insert(key),
        m.last_press(),
        key,
        time,
    );
    if let Some((lk, lt)) = m.last_press() {
        if lk == skey && key == skey && time - lt <= timeout {
            assert(m.last_press() == Some((skey, lt)));
        }
    }
}

/// Registering a definition changes nothing of what earlier definitions do on
/// later presses: after the registration a press fires an earlier handle if
/// and only if it did before, and fires the new handle if and only if the new
/// definition holds on it. Registration leaves the key state alone (see
/// `register_combination` and `register_succession`), and events processed
/// before it keep what they fired.
pub proof fn lemma_registration_adds_only_its_own_handle(
    defs: Seq<Shortcut>,
    s: Shortcut,
    held: Set<u64>,
    previous: Option<(u64, u64)>,
    key: u64,
    time: u64,
)
    requires
        defs.len() < usize::MAX,
    ensures
        forall|i: usize|
            i < defs.len() ==> (fired_on_press(defs.push(s), held, previous, key, time).contains(i)
                <==> #[trigger] fired_on_press(defs, held, previous, key, time).contains(i)),
        fired_on_press(defs.push(s), held, previous, key, time).contains(defs.len() as usize)
            <==> fires_on_press(s, held, previous, key, time),
{
    lemma_press_fires_each_match_once(defs, held, previous, key, time);
    lemma_press_fires_each_match_once(defs.push(s), held, previous, key, time);
    assert forall|i: usize| i < defs.len() implies (fired_on_press(
        defs.push(s),
        held,
        previous,
        key,
        time,
    ).contains(i) <==> #[trigger] fired_on_press(defs, held, previous, key, time).contains(i)) by {
        assert(defs.push(s)[i as int] == defs[i as int]);
    }
    assert(defs.push(s)[defs.len() as int] == s);
}

/// The registry after registering each of `defs` in turn, starting from
/// `start`.
pub open spec fn after_registrations(start: Seq<Shortcut>, defs: Seq<Shortcut>) -> Seq<Shortcut> {
    defs.fold_left(start, |acc: Seq<Shortcut>, s: Shortcut| acc.push(s))
}

/// Registrations are never lost: after `n` registrations the registry holds
/// exactly the `n` new definitions after the old ones, in the order in which
/// the registrations were made.
pub proof fn lemma_registrations_accumulate(start: Seq<Shortcut>, defs: Seq<Shortcut>)
    ensures
        after_registrations(start, defs) == start + defs,
        after_registrations(start, defs).len() == start.len() + defs.len(),
    decreases defs.len(),
{
    if defs.len() > 0 {
        lemma_registrations_accumulate(start, defs.drop_last());
        assert(start + defs =~= (start + defs.drop_last()).push(defs.last()));
    } else {
        assert(start + defs =~= start);
    }
}

} // verus!
