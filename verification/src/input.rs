use vstd::prelude::*;
use device_query::Keycode;

verus! {

#[verifier::external_type_specification]
#[verifier::external_body]
pub struct ExKeycode(Keycode);

/// Calls `<Keycode as PartialEq>::eq`. `Keycode` is an enum without fields whose `PartialEq` is
/// derived, so two keycodes compare equal exactly when they are the same key.
#[verifier::external_body]
fn keycode_eq(a: &Keycode, b: &Keycode) -> (r: bool)
    ensures
        r == (*a == *b),
{
    *a == *b
}

/// Whether a key is up or down.
#[derive(Clone, Copy, PartialEq, Eq, Structural, Debug)]
pub enum KeyState {
    Up,
    Down,
}

/// The state of a key in the previous frame and in the current one.
#[derive(Clone, Copy, PartialEq, Eq, Structural, Debug)]
pub struct KeyStateData {
    pub prev_state: KeyState,
    pub current_state: KeyState,
}

/// The keyboard as the game sees it: for every key seen so far, whether it was down in the
/// previous frame and whether it is down in this one.
pub struct Input {
    keylogger: Vec<(Keycode, KeyStateData)>,
}

impl Clone for Input {
    fn clone(&self) -> (r: Self)
        ensures
            self.same_keys(&r),
    {
        proof {
            use_type_invariant(self);
        }
        let mut log: Vec<(Keycode, KeyStateData)> = Vec::new();
        let mut i: usize = 0;
        while i < self.keylogger.len()
            invariant
                i <= self.keylogger.len(),
                log@ == self.keylogger@.take(i as int),
            decreases self.keylogger.len() - i,
        {
            log.push(self.keylogger[i]);
            i += 1;
            assert(log@ =~= self.keylogger@.take(i as int));
        }
        assert(log@ =~= self.keylogger@);
        Input { keylogger: log }
    }
}

/// The recorded state of `key` in a key log.
pub open spec fn log_lookup(log: Seq<(Keycode, KeyStateData)>, key: Keycode) -> Option<KeyStateData> {
    if exists|i: int| 0 <= i < log.len() && log[i].0 == key {
        Some(log[choose|i: int| 0 <= i < log.len() && log[i].0 == key].1)
    } else {
        None
    }
}

/// No key is recorded twice.
pub open spec fn log_keys_unique(log: Seq<(Keycode, KeyStateData)>) -> bool {
    forall|i: int, j: int| 0 <= i < log.len() && 0 <= j < log.len() && i != j ==> log[i].0 != log[j].0
}

/// The state of `key` after a frame in which exactly the keys of `pressed` are down.
pub open spec fn next_key_state(
    prev: Option<KeyStateData>,
    pressed: Seq<Keycode>,
    key: Keycode,
) -> Option<KeyStateData> {
    if pressed.contains(key) {
        Some(
            KeyStateData {
                prev_state: match prev {
                    Some(d) => d.current_state,
                    None => KeyState::Up,
                },
                current_state: KeyState::Down,
            },
        )
    } else {
        match prev {
            Some(d) => Some(KeyStateData { prev_state: d.current_state, current_state: KeyState::Up }),
            None => None,
        }
    }
}

impl Input {
    /// Both logs record the same keys in the same order with the same states.
    pub closed spec fn same_keys(&self, other: &Input) -> bool {
        self.keylogger@ == other.keylogger@
    }

    /// Inputs with the same log agree on every key.
    pub proof fn lemma_same_keys(a: &Input, b: &Input)
        requires
            a.same_keys(b),
        ensures
            forall|k: Keycode| a.state(k) == b.state(k),
    {
    }

    /// The recorded state of each key.
    pub closed spec fn state(&self, key: Keycode) -> Option<KeyStateData> {
        log_lookup(self.keylogger@, key)
    }

    /// The key log records each key once.
    #[verifier::type_invariant]
    spec fn keys_recorded_once(&self) -> bool {
        log_keys_unique(self.keylogger@)
    }

    /// Every pressed key: those whose current state is down.
    pub open spec fn spec_is_pressed(&self, key: Keycode) -> bool {
        self.state(key) matches Some(d) && d.current_state == KeyState::Down
    }

    proof fn lemma_lookup_at(log: Seq<(Keycode, KeyStateData)>, i: int)
        requires
            log_keys_unique(log),
            0 <= i < log.len(),
        ensures
            log_lookup(log, log[i].0) == Some(log[i].1),
    {
    }

    pub fn new() -> (r: Self)
        ensures
            forall|k: Keycode| r.state(k) is None,
    {
        Input { keylogger: Vec::new() }
    }

    /// Finds the position of `key` in the log.
    fn find(&self, key: &Keycode) -> (r: Option<usize>)
        ensures
            match r {
                Some(i) => i < self.keylogger.len() && self.keylogger@[i as int].0 == *key
                    && self.state(*key) == Some(self.keylogger@[i as int].1),
                None => self.state(*key) is None,
            },
    {
        proof {
            use_type_invariant(self);
        }
        Self::find_in(&self.keylogger, key)
    }

    /// Finds the position of `key` in a log that records each key once.
    fn find_in(log: &Vec<(Keycode, KeyStateData)>, key: &Keycode) -> (r: Option<usize>)
        requires
            log_keys_unique(log@),
        ensures
            match r {
                Some(i) => i < log.len() && log@[i as int].0 == *key && log_lookup(log@, *key) == Some(
                    log@[i as int].1,
                ),
                None => log_lookup(log@, *key) is None,
            },
    {
        let mut i: usize = 0;
        while i < log.len()
            invariant
                log_keys_unique(log@),
                i <= log.len(),
                forall|j: int| 0 <= j < i ==> log@[j].0 != *key,
            decreases log.len() - i,
        {
            if keycode_eq(&log[i].0, key) {
                proof {
                    Self::lemma_lookup_at(log@, i as int);
                }
                return Some(i);
            }
            i += 1;
        }
        None
    }

    /// The key went down this frame.
    pub open spec fn spec_is_key_down(&self, key: Keycode) -> bool {
        self.state(key) matches Some(d) && d.current_state == KeyState::Down && d.prev_state == KeyState::Up
    }

    /// Exactly the keys of `keys` are pressed.
    pub open spec fn spec_is_chord_pressed_exclusively(&self, keys: Seq<Keycode>) -> bool {
        &&& forall|k: Keycode| self.spec_is_pressed(k) ==> keys.contains(k)
        &&& forall|i: int| 0 <= i < keys.len() ==> self.spec_is_pressed(#[trigger] keys[i])
    }

    /// Whether the key was pressed down this frame.
    pub fn is_key_down(&self, keycode: &Keycode) -> (r: bool)
        ensures
            r == self.spec_is_key_down(*keycode),
    {
        match self.find(keycode) {
            Some(i) => {
                let d = self.keylogger[i].1;
                d.current_state == KeyState::Down && d.prev_state == KeyState::Up
            },
            None => false,
        }
    }

    /// Whether the key was released this frame.
    pub fn is_key_up(&self, keycode: &Keycode) -> (r: bool)
        ensures
            r == (self.state(*keycode) matches Some(d) && d.current_state == KeyState::Up
                && d.prev_state == KeyState::Down),
    {
        match self.find(keycode) {
            Some(i) => {
                let d = self.keylogger[i].1;
                d.current_state == KeyState::Up && d.prev_state == KeyState::Down
            },
            None => false,
        }
    }

    /// Whether the key is pressed. This is `true` on every frame while the key is held down.
    pub fn is_key_pressed(&self, keycode: &Keycode) -> (r: bool)
        ensures
            r == self.spec_is_pressed(*keycode),
    {
        match self.find(keycode) {
            Some(i) => {
                let d = self.keylogger[i].1;
                d.current_state == KeyState::Down
            },
            None => false,
        }
    }

    /// Whether all the provided keys are currently pressed, whatever other keys are pressed too.
    pub fn is_chord_pressed(&self, keycodes: &[Keycode]) -> (r: bool)
        ensures
            r == (forall|i: int| 0 <= i < keycodes@.len() ==> self.spec_is_pressed(#[trigger] keycodes@[i])),
    {
        let mut i: usize = 0;
        while i < keycodes.len()
            invariant
                i <= keycodes@.len(),
                forall|j: int| 0 <= j < i ==> self.spec_is_pressed(#[trigger] keycodes@[j]),
            decreases keycodes@.len() - i,
        {
            if !self.is_key_pressed(&keycodes[i]) {
                return false;
            }
            i += 1;
        }
        true
    }

    /// Whether all and only the given keys are currently pressed.
    pub fn is_chord_pressed_exclusively(&self, keycodes: &[Keycode]) -> (r: bool)
        ensures
            r == self.spec_is_chord_pressed_exclusively(keycodes@),
    {
        proof {
            use_type_invariant(self);
        }
        let mut i: usize = 0;
        while i < self.keylogger.len()
            invariant
                i <= self.keylogger.len(),
                log_keys_unique(self.keylogger@),
                forall|j: int| 0 <= j < i && self.keylogger@[j].1.current_state == KeyState::Down
                    ==> keycodes@.contains(#[trigger] self.keylogger@[j].0),
            decreases self.keylogger.len() - i,
        {
            let (key, data) = self.keylogger[i];
            if data.current_state == KeyState::Down {
                let mut found = false;
                let mut j: usize = 0;
                while j < keycodes.len()
                    invariant
                        j <= keycodes@.len(),
                        found == (exists|m: int| 0 <= m < j && keycodes@[m] == key),
                    decreases keycodes@.len() - j,
                {
                    if keycode_eq(&keycodes[j], &key) {
                        found = true;
                    }
                    j += 1;
                }
                if !found {
                    proof {
                        Self::lemma_lookup_at(self.keylogger@, i as int);
                        assert(self.spec_is_pressed(key));
                    }
                    return false;
                }
            }
            i += 1;
        }
        proof {
            assert forall|k: Keycode| self.spec_is_pressed(k) implies keycodes@.contains(k) by {
                let m = choose|m: int| 0 <= m < self.keylogger@.len() && self.keylogger@[m].0 == k;
                assert(self.keylogger@[m].0 == k);
            }
        }
        self.is_chord_pressed(keycodes)
    }

    proof fn lemma_push_contains(s: Seq<Keycode>, x: Keycode, k: Keycode)
        ensures
            s.push(x).contains(k) == (s.contains(k) || k == x),
    {
        if k == x {
            assert(s.push(x)[s.len() as int] == x);
        }
        if s.contains(k) {
            let i = choose|i: int| 0 <= i < s.len() && s[i] == k;
            assert(s.push(x)[i] == k);
        }
        if s.push(x).contains(k) {
            let i = choose|i: int| 0 <= i < s.len() + 1 && s.push(x)[i] == k;
            if i < s.len() {
                assert(s[i] == k);
            }
        }
    }

    proof fn lemma_lookup_set(log: Seq<(Keycode, KeyStateData)>, p: int, d: KeyStateData, k: Keycode)
        requires
            log_keys_unique(log),
            0 <= p < log.len(),
        ensures
            log_keys_unique(log.update(p, (log[p].0, d))),
            log_lookup(log.update(p, (log[p].0, d)), k) == (if k == log[p].0 {
                Some(d)
            } else {
                log_lookup(log, k)
            }),
    {
        let new_log = log.update(p, (log[p].0, d));
        assert(log_keys_unique(new_log));
        if exists|i: int| 0 <= i < log.len() && log[i].0 == k {
            let i = choose|i: int| 0 <= i < log.len() && log[i].0 == k;
            Self::lemma_lookup_at(new_log, i);
            Self::lemma_lookup_at(log, i);
        } else {
            assert(!exists|i: int| 0 <= i < new_log.len() && new_log[i].0 == k);
        }
    }

    proof fn lemma_lookup_push(log: Seq<(Keycode, KeyStateData)>, key: Keycode, d: KeyStateData, k: Keycode)
        requires
            log_keys_unique(log),
            log_lookup(log, key) is None,
        ensures
            log_keys_unique(log.push((key, d))),
            log_lookup(log.push((key, d)), k) == (if k == key {
                Some(d)
            } else {
                log_lookup(log, k)
            }),
    {
        let new_log = log.push((key, d));
        assert(forall|i: int| 0 <= i < log.len() ==> log[i].0 != key);
        assert(log_keys_unique(new_log));
        if k == key {
            Self::lemma_lookup_at(new_log, log.len() as int);
        } else if exists|i: int| 0 <= i < log.len() && log[i].0 == k {
            let i = choose|i: int| 0 <= i < log.len() && log[i].0 == k;
            Self::lemma_lookup_at(new_log, i);
            Self::lemma_lookup_at(log, i);
        } else {
            assert(!exists|i: int| 0 <= i < new_log.len() && new_log[i].0 == k);
        }
    }

    /// Advances the key log by one frame in which exactly the keys of `current_keys` are down.
    pub fn update(&mut self, current_keys: &Vec<Keycode>)
        ensures
            forall|k: Keycode| #[trigger] final(self).state(k) == next_key_state(old(self).state(k), current_keys@, k),
    {
        proof {
            use_type_invariant(&*self);
        }
        let ghost old_log = self.keylogger@;
        let mut log: Vec<(Keycode, KeyStateData)> = Vec::new();
        std::mem::swap(&mut log, &mut self.keylogger);
        let mut i: usize = 0;
        while i < log.len()
            invariant
                i <= log.len(),
                log@.len() == old_log.len(),
                log_keys_unique(old_log),
                forall|j: int| 0 <= j < log@.len() ==> #[trigger] log@[j].0 == old_log[j].0,
                forall|j: int| 0 <= j < i ==> #[trigger] log@[j].1 == (KeyStateData {
                    prev_state: old_log[j].1.current_state,
                    current_state: KeyState::Up,
                }),
                forall|j: int| i <= j < log@.len() ==> #[trigger] log@[j].1 == old_log[j].1,
            decreases old_log.len() - i,
        {
            let (key, data) = log[i];
            log.set(i, (key, KeyStateData { prev_state: data.current_state, current_state: KeyState::Up }));
            i += 1;
        }
        proof {
            let shifted = log@;
            assert(log_keys_unique(shifted));
            assert forall|k: Keycode| #[trigger] log_lookup(shifted, k) == next_key_state(
                log_lookup(old_log, k),
                current_keys@.take(0),
                k,
            ) by {
                if exists|j: int| 0 <= j < old_log.len() && old_log[j].0 == k {
                    let j = choose|j: int| 0 <= j < old_log.len() && old_log[j].0 == k;
                    Self::lemma_lookup_at(shifted, j);
                    Self::lemma_lookup_at(old_log, j);
                } else {
                    assert(!exists|j: int| 0 <= j < shifted.len() && shifted[j].0 == k);
                }
            }
        }
        let mut n: usize = 0;
        while n < current_keys.len()
            invariant
                n <= current_keys@.len(),
                log_keys_unique(log@),
                forall|k: Keycode| #[trigger] log_lookup(log@, k) == next_key_state(
                    log_lookup(old_log, k),
                    current_keys@.take(n as int),
                    k,
                ),
            decreases current_keys@.len() - n,
        {
            let key = current_keys[n];
            let ghost before = log@;
            assert(current_keys@.take(n + 1) =~= current_keys@.take(n as int).push(key));
            assert forall|k: Keycode| #[trigger] log_lookup(before, k) == next_key_state(
                log_lookup(old_log, k),
                current_keys@.take(n as int),
                k,
            ) by {
                assert(log_lookup(log@, k) == log_lookup(before, k));
            }
            match Self::find_in(&log, &key) {
                Some(p) => {
                    let (_, data) = log[p];
                    let nd = KeyStateData { prev_state: data.prev_state, current_state: KeyState::Down };
                    log.set(p, (key, nd));
                    proof {
                        assert forall|k: Keycode| #[trigger] log_lookup(log@, k) == next_key_state(
                            log_lookup(old_log, k),
                            current_keys@.take(n + 1),
                            k,
                        ) by {
                            assert(log_lookup(before, k) == next_key_state(log_lookup(old_log, k), current_keys@.take(n as int), k));
                            Self::lemma_push_contains(current_keys@.take(n as int), key, k);
                            Self::lemma_lookup_set(before, p as int, nd, k);
                            assert(log@ == before.update(p as int, (before[p as int].0, nd)));
                        }
                        Self::lemma_lookup_set(before, p as int, nd, key);
                    }
                },
                None => {
                    let nd = KeyStateData { prev_state: KeyState::Up, current_state: KeyState::Down };
                    log.push((key, nd));
                    proof {
                        assert forall|k: Keycode| #[trigger] log_lookup(log@, k) == next_key_state(
                            log_lookup(old_log, k),
                            current_keys@.take(n + 1),
                            k,
                        ) by {
                            assert(log_lookup(before, k) == next_key_state(log_lookup(old_log, k), current_keys@.take(n as int), k));
                            Self::lemma_push_contains(current_keys@.take(n as int), key, k);
                            Self::lemma_lookup_push(before, key, nd, k);
                        }
                        Self::lemma_lookup_push(before, key, nd, key);
                    }
                },
            }
            n += 1;
        }
        proof {
            assert(current_keys@.take(current_keys@.len() as int) =~= current_keys@);
        }
        self.keylogger = log;
    }
}

} // verus!

verus! {

/// After a frame, a key is pressed exactly when it is among the keys down in that frame.
pub proof fn lemma_pressed_after_update(prev: Option<KeyStateData>, pressed: Seq<Keycode>, key: Keycode)
    ensures
        (next_key_state(prev, pressed, key) matches Some(d) && d.current_state == KeyState::Down) <==> pressed.contains(
            key,
        ),
{
}

/// After a frame, a key went down exactly when it is among the keys down in that frame and was
/// not pressed in the frame before; it went up exactly when it was pressed before and is not now.
pub proof fn lemma_down_and_up_after_update(prev: Option<KeyStateData>, pressed: Seq<Keycode>, key: Keycode)
    ensures
        ({
            let was_pressed = prev matches Some(d) && d.current_state == KeyState::Down;
            let now = next_key_state(prev, pressed, key);
            &&& (now matches Some(d) && d.current_state == KeyState::Down && d.prev_state == KeyState::Up) <==> (
            pressed.contains(key) && !was_pressed)
            &&& (now matches Some(d) && d.current_state == KeyState::Up && d.prev_state == KeyState::Down) <==> (
            !pressed.contains(key) && was_pressed)
        }),
{
}

} // verus!
