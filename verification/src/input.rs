//! Keyboard bookkeeping over plain key codes: which keys are down and for
//! how many update ticks. The window layer that produces the raw events
//! sits outside this crate and hands them in as plain values; everything
//! float-valued (mouse positions, axis mapping) stays with it.

use vstd::prelude::*;

verus! {

/// How long a key has been held: the number of updates since it went down.
#[derive(Clone, Copy, PartialEq, Eq, Structural, Debug)]
pub struct KeyState {
    pub ticks: u32,
}

/// One keyboard event: a key code went down or up.
#[derive(Clone, Copy, PartialEq, Eq, Structural, Debug)]
pub struct KeyEvent {
    pub key: u32,
    pub pressed: bool,
}

/// The set of keys currently held, each with its tick count; at most one
/// entry per key code.
pub struct KeyboardState {
    pub keys_down: Vec<(u32, KeyState)>,
}

/// The index of the first entry for `key`, or -1 when the key is up.
pub open spec fn spec_key_index(m: Seq<(u32, KeyState)>, key: u32) -> int
    decreases m.len(),
{
    if m.len() == 0 {
        -1
    } else if m.first().0 == key {
        0
    } else {
        let r = spec_key_index(m.drop_first(), key);
        if r == -1 {
            -1
        } else {
            r + 1
        }
    }
}

/// What one event does to the map: a press starts an absent key at zero
/// ticks and leaves a held key alone; a release removes the key.
pub open spec fn spec_apply_event(m: Seq<(u32, KeyState)>, e: KeyEvent) -> Seq<(u32, KeyState)> {
    let i = spec_key_index(m, e.key);
    if e.pressed {
        if i == -1 {
            m.push((e.key, KeyState { ticks: 0 }))
        } else {
            m
        }
    } else {
        if i == -1 {
            m
        } else {
            m.remove(i)
        }
    }
}

/// All events of an update, applied in order.
pub open spec fn spec_apply_events(m: Seq<(u32, KeyState)>, es: Seq<KeyEvent>) -> Seq<
    (u32, KeyState),
>
    decreases es.len(),
{
    if es.len() == 0 {
        m
    } else {
        spec_apply_events(spec_apply_event(m, es.first()), es.drop_first())
    }
}

/// Every held key gains one tick at the end of an update.
pub open spec fn spec_tick_all(m: Seq<(u32, KeyState)>) -> Seq<(u32, KeyState)> {
    m.map_values(|p: (u32, KeyState)| (p.0, KeyState { ticks: (p.1.ticks + 1) as u32 }))
}

impl KeyboardState {
    pub open spec fn view(self) -> Seq<(u32, KeyState)> {
        self.keys_down@
    }

    /// Tick counts stay clear of overflow.
    pub open spec fn ticks_in_range(self) -> bool {
        forall|i: int|
            0 <= i < self.keys_down@.len() ==> (#[trigger] self.keys_down@[i]).1.ticks
                < 0xffff_ffffu32
    }

    /// At most one entry per key code: the invariant of this map, which
    /// `update` keeps; without it a removal could miss a duplicate.
    pub open spec fn keys_unique(self) -> bool {
        keys_unique_in(self.keys_down@)
    }

    pub fn new() -> (r: KeyboardState)
        ensures
            r@ == Seq::<(u32, KeyState)>::empty(),
            r.keys_unique(),
    {
        KeyboardState { keys_down: Vec::new() }
    }

    /// The tick count of a held key, or nothing when the key is up.
    pub fn get_down(&self, key: u32) -> (r: Option<KeyState>)
        ensures
            spec_key_index(self@, key) == -1 ==> r is None,
            spec_key_index(self@, key) != -1 ==> r == Some(
                self@[spec_key_index(self@, key)].1,
            ),
    {
        proof {
            lemma_spec_key_index(self@, key);
        }
        let n = self.keys_down.len();
        let mut i: usize = 0;
        while i < n
            invariant
                i <= n,
                n == self@.len(),
                forall|j: int| 0 <= j < i ==> (#[trigger] self@[j]).0 != key,
            decreases n - i,
        {
            let (k, s) = self.keys_down[i];
            if k == key {
                proof {
                    lemma_spec_key_index(self@, key);
                    let si = spec_key_index(self@, key);
                    assert(si != -1);
                    assert(si == i as int);
                }
                return Some(s);
            }
            i += 1;
        }
        proof {
            lemma_spec_key_index(self@, key);
        }
        None
    }

    /// Whether the key is currently held.
    pub fn is_down(&self, key: u32) -> (r: bool)
        ensures
            r == (spec_key_index(self@, key) != -1),
    {
        self.get_down(key).is_some()
    }

    /// Whether the key went down on the latest update.
    pub fn was_just_pressed(&self, key: u32) -> (r: bool)
        ensures
            r == (spec_key_index(self@, key) != -1 && self@[spec_key_index(self@, key)].1.ticks
                == 1),
    {
        match self.get_down(key) {
            Some(s) => s.ticks == 1,
            None => false,
        }
    }

    /// Fold one frame's events into the held set, then advance every held
    /// key by one tick.
    pub fn update(&mut self, events: &Vec<KeyEvent>)
        requires
            old(self).ticks_in_range(),
            old(self).keys_unique(),
        ensures
            final(self)@ == spec_tick_all(spec_apply_events(old(self)@, events@)),
            final(self).keys_unique(),
    {
        let ghost m0 = self@;
        let n = events.len();
        let mut i: usize = 0;
        while i < n
            invariant
                i <= n,
                n == events@.len(),
                self@ == spec_apply_events(m0, events@.take(i as int)),
                ticks_bounded(self@),
                ticks_bounded(m0),
                keys_unique_in(self@),
                m0 == old(self)@,
            decreases n - i,
        {
            let e = events[i];
            let ghost before = self@;
            proof {
                lemma_spec_key_index(self@, e.key);
            }
            let idx = self.find_key(e.key);
            if e.pressed {
                match idx {
                    Some(_) => {},
                    None => {
                        self.keys_down.push((e.key, KeyState { ticks: 0 }));
                    },
                }
            } else {
                match idx {
                    Some(j) => {
                        self.keys_down.remove(j);
                    },
                    None => {},
                }
            }
            proof {
                assert(self@ == spec_apply_event(before, e));
                assert(events@.take(i as int + 1) =~= events@.take(i as int).push(e));
                lemma_apply_events_push(m0, events@.take(i as int), e);
                lemma_apply_event_ticks(before, e);
                lemma_apply_event_unique(before, e);
            }
            i += 1;
        }
        assert(events@.take(n as int) =~= events@);
        let m = self.keys_down.len();
        let ghost folded = self@;
        let mut j: usize = 0;
        while j < m
            invariant
                j <= m,
                m == folded.len(),
                self@.len() == folded.len(),
                ticks_bounded(folded),
                keys_unique_in(folded),
                forall|t: int| 0 <= t < j ==> self@[t] == spec_tick_all(folded)[t],
                forall|t: int| j <= t < m ==> self@[t] == folded[t],
            decreases m - j,
        {
            let (k, s) = self.keys_down[j];
            proof {
                assert(self@[j as int] == folded[j as int]);
                assert(folded[j as int].1.ticks < 0xffff_ffffu32);
            }
            self.keys_down[j] = (k, KeyState { ticks: s.ticks + 1 });
            j += 1;
        }
        assert(self@ =~= spec_tick_all(folded));
        proof {
            assert forall|a: int, b: int|
                0 <= a < b < spec_tick_all(folded).len() implies (#[trigger] spec_tick_all(
                folded,
            )[a]).0 != (#[trigger] spec_tick_all(folded)[b]).0 by {
                assert(spec_tick_all(folded)[a].0 == folded[a].0);
                assert(spec_tick_all(folded)[b].0 == folded[b].0);
            }
        }
    }

    /// Find the entry of a key, matching `spec_key_index`.
    fn find_key(&self, key: u32) -> (r: Option<usize>)
        ensures
            match r {
                Some(i) => spec_key_index(self@, key) == i && i < self@.len() && self@[i as int].0
                    == key,
                None => spec_key_index(self@, key) == -1,
            },
    {
        proof {
            lemma_spec_key_index(self@, key);
        }
        let n = self.keys_down.len();
        let mut i: usize = 0;
        while i < n
            invariant
                i <= n,
                n == self@.len(),
                forall|j: int| 0 <= j < i ==> (#[trigger] self@[j]).0 != key,
            decreases n - i,
        {
            if self.keys_down[i].0 == key {
                proof {
                    lemma_spec_key_index(self@, key);
                    let si = spec_key_index(self@, key);
                    assert(si != -1);
                }
                return Some(i);
            }
            i += 1;
        }
        proof {
            lemma_spec_key_index(self@, key);
        }
        None
    }
}

/// Every tick count in the map is clear of overflow.
pub open spec fn ticks_bounded(m: Seq<(u32, KeyState)>) -> bool {
    forall|i: int| 0 <= i < m.len() ==> (#[trigger] m[i]).1.ticks < 0xffff_ffffu32
}

/// At most one entry per key code.
pub open spec fn keys_unique_in(m: Seq<(u32, KeyState)>) -> bool {
    forall|i: int, j: int| 0 <= i < j < m.len() ==> (#[trigger] m[i]).0 != (#[trigger] m[j]).0
}

/// Applying an event keeps the keys unique: a press only adds a key that
/// was absent, a release only removes one.
pub proof fn lemma_apply_event_unique(m: Seq<(u32, KeyState)>, e: KeyEvent)
    requires
        keys_unique_in(m),
    ensures
        keys_unique_in(spec_apply_event(m, e)),
{
    let idx = spec_key_index(m, e.key);
    lemma_spec_key_index(m, e.key);
    if e.pressed {
        if idx == -1 {
            let m2 = m.push((e.key, KeyState { ticks: 0 }));
            assert forall|i: int, j: int| 0 <= i < j < m2.len() implies (#[trigger] m2[i]).0
                != (#[trigger] m2[j]).0 by {
                if j == m2.len() - 1 {
                    assert(m2[i] == m[i]);
                    assert(m[i].0 != e.key);
                } else {
                    assert(m2[i] == m[i]);
                    assert(m2[j] == m[j]);
                }
            }
        }
    } else {
        if idx != -1 {
            let m2 = m.remove(idx);
            assert forall|i: int, j: int| 0 <= i < j < m2.len() implies (#[trigger] m2[i]).0
                != (#[trigger] m2[j]).0 by {
                assert(m2[i] == (if i < idx {
                    m[i]
                } else {
                    m[i + 1]
                }));
                assert(m2[j] == (if j < idx {
                    m[j]
                } else {
                    m[j + 1]
                }));
            }
        }
    }
}

/// What `spec_key_index` returns: -1 exactly when the key is absent,
/// otherwise the first index holding it.
pub proof fn lemma_spec_key_index(m: Seq<(u32, KeyState)>, key: u32)
    ensures
        spec_key_index(m, key) == -1 ==> forall|j: int|
            0 <= j < m.len() ==> (#[trigger] m[j]).0 != key,
        spec_key_index(m, key) != -1 ==> {
            &&& 0 <= spec_key_index(m, key) < m.len()
            &&& m[spec_key_index(m, key)].0 == key
            &&& forall|j: int| 0 <= j < spec_key_index(m, key) ==> (#[trigger] m[j]).0 != key
        },
    decreases m.len(),
{
    if m.len() > 0 {
        assert(m[0] == m.first());
        lemma_spec_key_index(m.drop_first(), key);
        let rest = m.drop_first();
        assert(forall|j: int| 0 <= j < rest.len() ==> (#[trigger] rest[j]) == m[j + 1]);
        if m.first().0 != key {
            let r = spec_key_index(rest, key);
            if r == -1 {
                assert forall|j: int| 0 <= j < m.len() implies (#[trigger] m[j]).0 != key by {
                    if j > 0 {
                        assert(rest[j - 1] == m[j]);
                    }
                }
            } else {
                assert(m[r + 1] == rest[r]);
                assert forall|j: int| 0 <= j < r + 1 implies (#[trigger] m[j]).0 != key by {
                    if j > 0 {
                        assert(rest[j - 1] == m[j]);
                    }
                }
            }
        }
    }
}

/// Folding one more event extends the fold.
pub proof fn lemma_apply_events_push(m: Seq<(u32, KeyState)>, es: Seq<KeyEvent>, e: KeyEvent)
    ensures
        spec_apply_events(m, es.push(e)) == spec_apply_event(spec_apply_events(m, es), e),
    decreases es.len(),
{
    if es.len() == 0 {
        assert(es.push(e).drop_first() =~= Seq::<KeyEvent>::empty());
        assert(es.push(e).first() == e);
        assert(spec_apply_events(spec_apply_event(m, e), Seq::<KeyEvent>::empty())
            == spec_apply_event(m, e));
    } else {
        assert(es.push(e).first() == es.first());
        assert(es.push(e).drop_first() =~= es.drop_first().push(e));
        lemma_apply_events_push(spec_apply_event(m, es.first()), es.drop_first(), e);
    }
}

/// Applying an event keeps every tick count in range: it only ever adds a
/// zero-tick entry or removes one.
pub proof fn lemma_apply_event_ticks(m: Seq<(u32, KeyState)>, e: KeyEvent)
    requires
        ticks_bounded(m),
    ensures
        ticks_bounded(spec_apply_event(m, e)),
{
    let i = spec_key_index(m, e.key);
    if e.pressed {
        if i == -1 {
            let m2 = m.push((e.key, KeyState { ticks: 0 }));
            assert(forall|j: int| 0 <= j < m.len() ==> m2[j] == m[j]);
        }
    } else {
        if i != -1 {
            lemma_spec_key_index(m, e.key);
            let m2 = m.remove(i);
            assert(forall|j: int|
                0 <= j < m2.len() ==> m2[j] == (if j < i {
                    m[j]
                } else {
                    m[j + 1]
                }));
        }
    }
}

} // verus!
