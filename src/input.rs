//! Keyboard state: which keys are held, and which went down or up since
//! the events were last cleared.
use vstd::prelude::*;

verus! {

/// The keys the game reads; every other key is `Other`.
#[derive(Clone, Copy, Debug, PartialEq, Eq, Structural)]
pub enum Key {
    ArrowLeft,
    ArrowRight,
    ArrowUp,
    KeyA,
    KeyD,
    KeyW,
    Escape,
    Other,
}

pub struct InputManager {
    make_events: Vec<Key>,
    break_events: Vec<Key>,
    key_down: Vec<Key>,
}

impl InputManager {
    /// Keys pressed since the last clear, in order.
    pub closed spec fn makes(&self) -> Seq<Key> {
        self.make_events@
    }

    /// Keys released since the last clear, in order.
    pub closed spec fn breaks(&self) -> Seq<Key> {
        self.break_events@
    }

    /// Keys held now.
    pub closed spec fn down(&self) -> Set<Key> {
        self.key_down@.to_set()
    }

    pub closed spec fn wf(&self) -> bool {
        self.key_down@.no_duplicates()
    }

    pub fn new() -> (r: Self)
        ensures
            r.wf(),
            r.makes() == Seq::<Key>::empty(),
            r.breaks() == Seq::<Key>::empty(),
            r.down() == Set::<Key>::empty(),
    {
        let r = InputManager { make_events: Vec::new(), break_events: Vec::new(), key_down: Vec::new() };
        assert(r.key_down@.to_set() =~= Set::<Key>::empty());
        r
    }

    /// Records a key going down (`pressed`) or up. The result says whether
    /// the event was consumed, which it never is.
    pub fn input(&mut self, key: Key, pressed: bool) -> (consumed: bool)
        requires
            old(self).wf(),
        ensures
            final(self).wf(),
            !consumed,
            pressed ==> final(self).makes() == old(self).makes().push(key) && final(self).breaks()
                == old(self).breaks() && final(self).down() == old(self).down().insert(key),
            !pressed ==> final(self).breaks() == old(self).breaks().push(key) && final(self).makes()
                == old(self).makes() && final(self).down() == old(self).down().remove(key),
    {
        let ghost before = self.key_down@;
        let pos = self.find_down(key);
        if pressed {
            self.make_events.push(key);
            if pos >= self.key_down.len() {
                self.key_down.push(key);
                proof {
                    assert(self.key_down@ == before.push(key));
                    assert forall|k: Key| self.key_down@.contains(k) == (before.contains(k) || k == key) by {
                        if self.key_down@.contains(k) && k != key {
                            let i = choose|i: int| 0 <= i < self.key_down@.len() && self.key_down@[i] == k;
                            assert(before[i] == k);
                        }
                        if before.contains(k) {
                            let i = choose|i: int| 0 <= i < before.len() && before[i] == k;
                            assert(self.key_down@[i] == k);
                        }
                        if k == key {
                            assert(self.key_down@[before.len() as int] == k);
                        }
                    }
                    assert(self.key_down@.to_set() =~= before.to_set().insert(key));
                    assert forall|i: int, j: int| 0 <= i < self.key_down@.len() && 0 <= j < self.key_down@.len() && i != j
                        implies self.key_down@[i] != self.key_down@[j] by {
                        if i == before.len() as int {
                            assert(before.contains(self.key_down@[j]));
                        } else if j == before.len() as int {
                            assert(before.contains(self.key_down@[i]));
                        }
                    }
                }
            } else {
                proof {
                    assert(before.to_set().insert(key) =~= before.to_set());
                }
            }
        } else {
            self.break_events.push(key);
            if pos < self.key_down.len() {
                self.key_down.swap_remove(pos);
                proof {
                    let after = self.key_down@;
                    let last = before.len() - 1;
                    assert(after == before.update(pos as int, before[last]).drop_last());
                    let src = |k: int| if k == pos as int { last } else { k };
                    assert forall|k: int| 0 <= k < after.len() implies after[k] == before[src(k)] && 0 <= src(k) < before.len() && src(k) != pos as int by {}
                    assert forall|i: int, j: int| 0 <= i < after.len() && 0 <= j < after.len() && i != j
                        implies after[i] != after[j] by {
                        assert(before[src(i)] != before[src(j)]);
                    }
                    assert forall|k: Key| after.to_set().contains(k) == before.to_set().remove(key).contains(k) by {
                        if after.contains(k) {
                            let i = choose|i: int| 0 <= i < after.len() && after[i] == k;
                            assert(before[src(i)] == k);
                            assert(before[pos as int] == key);
                        }
                        if before.contains(k) && k != key {
                            let i = choose|i: int| 0 <= i < before.len() && before[i] == k;
                            if i == last {
                                assert(after[pos as int] == k);
                            } else {
                                assert(i != pos as int);
                                assert(after[i] == k);
                            }
                        }
                    }
                    assert(after.to_set() =~= before.to_set().remove(key));
                }
            } else {
                proof {
                    assert(before.to_set().remove(key) =~= before.to_set());
                }
            }
        }
        false
    }

    /// Index of `key` among the held keys, or their count when it is not
    /// held.
    fn find_down(&self, key: Key) -> (r: usize)
        ensures
            r <= self.key_down@.len(),
            r < self.key_down@.len() ==> self.key_down@[r as int] == key,
            r == self.key_down@.len() ==> !self.key_down@.contains(key),
    {
        let mut i: usize = 0;
        while i < self.key_down.len()
            invariant
                i <= self.key_down@.len(),
                forall|j: int| 0 <= j < i ==> self.key_down@[j] != key,
            decreases self.key_down@.len() - i,
        {
            if self.key_down[i] == key {
                return i;
            }
            i += 1;
        }
        i
    }

    pub fn is_down(&self, key: Key) -> (r: bool)
        ensures
            r == self.down().contains(key),
    {
        self.find_down(key) < self.key_down.len()
    }

    /// `key` went down since the last clear.
    pub fn is_make(&self, key: Key) -> (r: bool)
        ensures
            r == self.makes().contains(key),
    {
        contains_key(&self.make_events, key)
    }

    /// `key` went up since the last clear.
    pub fn is_break(&self, key: Key) -> (r: bool)
        ensures
            r == self.breaks().contains(key),
    {
        contains_key(&self.break_events, key)
    }

    /// Forgets the key-down and key-up events; held keys stay held.
    pub fn clear_events(&mut self)
        requires
            old(self).wf(),
        ensures
            final(self).wf(),
            final(self).makes() == Seq::<Key>::empty(),
            final(self).breaks() == Seq::<Key>::empty(),
            final(self).down() == old(self).down(),
    {
        self.make_events.clear();
        self.break_events.clear();
    }

    /// Escape went down or up since the last clear.
    pub fn exit_requested(&self) -> (r: bool)
        ensures
            r == (self.makes().contains(Key::Escape) || self.breaks().contains(Key::Escape)),
    {
        self.is_break(Key::Escape) || self.is_make(Key::Escape)
    }
}

fn contains_key(keys: &Vec<Key>, key: Key) -> (r: bool)
    ensures
        r == keys@.contains(key),
{
    let mut i: usize = 0;
    while i < keys.len()
        invariant
            i <= keys@.len(),
            forall|j: int| 0 <= j < i ==> keys@[j] != key,
        decreases keys@.len() - i,
    {
        if keys[i] == key {
            return true;
        }
        i += 1;
    }
    false
}

} // verus!
