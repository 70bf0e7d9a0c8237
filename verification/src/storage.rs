//! Which finger of which user lives in which slot of the sensor.
//!
//! The sensor keeps the templates; this registry only says whose they are.

use vstd::prelude::*;
use vstd::string::*;
use crate::assoc::{assoc_find, assoc_put, assoc_take};
use crate::text::push_decimal;
use crate::token::str_le;

verus! {

/// A user's fingers and their slots.
pub type FingerSlots = Vec<(String, u8)>;

/// Why the registry could not do as asked.
#[derive(Debug)]
pub enum StorageError {
    /// Reading or writing the file failed.
    Io(String),
    /// The file does not hold a registry.
    Parse(String),
    /// Every slot is taken; the sensor's capacity.
    NoFreeSlot(u16),
}

/// A [`StorageError`] as mathematics.
pub enum StorageErrorView {
    Io(Seq<char>),
    Parse(Seq<char>),
    NoFreeSlot(u16),
}

impl View for StorageError {
    type V = StorageErrorView;

    open spec fn view(&self) -> StorageErrorView {
        match *self {
            StorageError::Io(s) => StorageErrorView::Io(s@),
            StorageError::Parse(s) => StorageErrorView::Parse(s@),
            StorageError::NoFreeSlot(c) => StorageErrorView::NoFreeSlot(c),
        }
    }
}

/// The error in words.
pub open spec fn storage_error_text(e: StorageErrorView) -> Seq<char> {
    match e {
        StorageErrorView::Io(s) => "storage I/O: "@ + s,
        StorageErrorView::Parse(s) => "storage parse: "@ + s,
        StorageErrorView::NoFreeSlot(c) => "no free slots (capacity="@ + crate::text::decimal(
            c as nat,
        ) + ")"@,
    }
}

impl StorageError {
    /// The error in words.
    pub fn message(&self) -> (s: String)
        ensures
            s@ == storage_error_text(self@),
    {
        match self {
            StorageError::Io(why) => {
                let mut s = "storage I/O: ".to_owned();
                s.append(why.as_str());
                s
            },
            StorageError::Parse(why) => {
                let mut s = "storage parse: ".to_owned();
                s.append(why.as_str());
                s
            },
            StorageError::NoFreeSlot(c) => {
                let mut s = "no free slots (capacity=".to_owned();
                push_decimal(&mut s, *c as u64);
                s.append(")");
                s
            },
        }
    }
}

// ---------- the registry as a map ----------

/// Users, their fingers, and the slot of each.
pub type Slots = Map<Seq<char>, Map<Seq<char>, u8>>;

/// A user's fingers: none where the user is unknown.
pub open spec fn fingers_of(s: Slots, user: Seq<char>) -> Map<Seq<char>, u8> {
    if s.dom().contains(user) {
        s[user]
    } else {
        Map::empty()
    }
}

/// The slot of a finger.
pub open spec fn slot_of(s: Slots, user: Seq<char>, finger: Seq<char>) -> Option<u8> {
    if fingers_of(s, user).dom().contains(finger) {
        Some(fingers_of(s, user)[finger])
    } else {
        None
    }
}

/// The registry with a finger put into a slot.
pub open spec fn with_slot(s: Slots, user: Seq<char>, finger: Seq<char>, slot: u8) -> Slots {
    s.insert(user, fingers_of(s, user).insert(finger, slot))
}

/// The registry without a finger, and without its user once no finger is left.
pub open spec fn without_finger(s: Slots, user: Seq<char>, finger: Seq<char>) -> Slots {
    if !s.dom().contains(user) {
        s
    } else if s[user].remove(finger) == Map::<Seq<char>, u8>::empty() {
        s.remove(user)
    } else {
        s.insert(user, s[user].remove(finger))
    }
}

/// Whether any finger lives in the slot.
pub open spec fn slot_used(s: Slots, slot: int) -> bool {
    exists|u: Seq<char>, f: Seq<char>| #[trigger] slot_of(s, u, f) matches Some(x) && x == slot
}

/// How many slots can be handed out: slots are numbered by one byte.
pub open spec fn usable_slots(capacity: u16) -> int {
    if capacity < 256 {
        capacity as int
    } else {
        256
    }
}

/// The names in alphabetical order, each once: exactly the keys of `m`.
pub open spec fn is_sorted_listing(names: Seq<String>, m: Map<Seq<char>, u8>) -> bool {
    &&& forall|i: int, j: int|
        0 <= i < j < names.len() ==> crate::token::text_le(
            #[trigger] names[i]@,
            #[trigger] names[j]@,
        ) && names[i]@ != names[j]@
    &&& forall|i: int| 0 <= i < names.len() ==> m.dom().contains(#[trigger] names[i]@)
    &&& forall|f: Seq<char>| #[trigger]
        m.dom().contains(f) ==> exists|i: int| 0 <= i < names.len() && #[trigger] names[i]@ == f
}

/// The registry of one sensor.
pub struct Storage {
    capacity: u16,
    users: Vec<(String, FingerSlots)>,
}

spec fn slots_view(us: Seq<(String, FingerSlots)>) -> Slots {
    crate::assoc::assoc_map(us).map_values(|fs: FingerSlots| crate::assoc::assoc_map(fs@))
}

spec fn users_wf(us: Seq<(String, FingerSlots)>) -> bool {
    &&& crate::assoc::unique_keys(us)
    &&& forall|i: int| 0 <= i < us.len() ==> crate::assoc::unique_keys((#[trigger] us[i]).1@)
}

impl View for Storage {
    type V = Slots;

    closed spec fn view(&self) -> Slots {
        slots_view(self.users@)
    }
}

/// A list that stands for no pair is empty.
proof fn lemma_empty_assoc<V>(s: Seq<(String, V)>)
    ensures
        crate::assoc::assoc_map(s) == Map::<Seq<char>, V>::empty() <==> s.len() == 0,
{
    crate::assoc::lemma_assoc_dom(s);
    if s.len() > 0 {
        assert(crate::assoc::assoc_map(s).dom().contains(s[0].0@));
        assert(!Map::<Seq<char>, V>::empty().dom().contains(s[0].0@));
    }
}

impl Storage {
    #[verifier::type_invariant]
    spec fn wf(self) -> bool {
        users_wf(self.users@)
    }

    /// The number of slots that the sensor has.
    pub closed spec fn slot_capacity(self) -> u16 {
        self.capacity
    }

    /// A registry of nobody.
    pub fn open(capacity: u16) -> (s: Storage)
        ensures
            s@ == Map::<Seq<char>, Map<Seq<char>, u8>>::empty(),
            s.slot_capacity() == capacity,
    {
        let users: Vec<(String, FingerSlots)> = Vec::new();
        proof {
            assert(slots_view(users@) =~= Map::empty());
        }
        Storage { capacity, users }
    }

    /// Puts in a user with fingers as a file lists them; a finger listed twice
    /// has its last slot, a user put in twice their last fingers.
    pub fn load_user(&mut self, user: &str, fingers: FingerSlots)
        ensures
            final(self)@ == old(self)@.insert(user@, crate::assoc::assoc_map(fingers@)),
            final(self).slot_capacity() == old(self).slot_capacity(),
    {
        proof {
            use_type_invariant(&*self);
        }
        let mut own: FingerSlots = Vec::new();
        let mut i: usize = 0;
        while i < fingers.len()
            invariant
                0 <= i <= fingers@.len(),
                crate::assoc::unique_keys(own@),
                crate::assoc::assoc_map(own@) == crate::assoc::assoc_map(
                    fingers@.take(i as int),
                ),
            decreases fingers@.len() - i,
        {
            assoc_put(&mut own, fingers[i].0.as_str(), fingers[i].1);
            i = i + 1;
            assert(fingers@.take(i as int).drop_last() =~= fingers@.take(i - 1));
        }
        assert(fingers@.take(i as int) =~= fingers@);
        self.put_user(user, own);
    }

    fn put_user(&mut self, user: &str, fingers: FingerSlots)
        requires
            crate::assoc::unique_keys(fingers@),
        ensures
            final(self)@ == old(self)@.insert(user@, crate::assoc::assoc_map(fingers@)),
            final(self).slot_capacity() == old(self).slot_capacity(),
    {
        proof {
            use_type_invariant(&*self);
        }
        let mut users: Vec<(String, FingerSlots)> = Vec::new();
        std::mem::swap(&mut users, &mut self.users);
        let ghost before = users@;
        assoc_put(&mut users, user, fingers);
        proof {
            assert(slots_view(users@) =~= slots_view(before).insert(
                user@,
                crate::assoc::assoc_map(fingers@),
            ));
        }
        self.users = users;
    }

    fn take_user(&mut self, user: &str) -> (r: Option<FingerSlots>)
        ensures
            final(self)@ == old(self)@.remove(user@),
            final(self).slot_capacity() == old(self).slot_capacity(),
            match r {
                Some(fs) => {
                    &&& crate::assoc::unique_keys(fs@)
                    &&& old(self)@.dom().contains(user@)
                    &&& old(self)@[user@] == crate::assoc::assoc_map(fs@)
                },
                None => !old(self)@.dom().contains(user@),
            },
    {
        proof {
            use_type_invariant(&*self);
        }
        let mut users: Vec<(String, FingerSlots)> = Vec::new();
        std::mem::swap(&mut users, &mut self.users);
        let ghost before = users@;
        let r = assoc_take(&mut users, user);
        proof {
            assert(slots_view(users@) =~= slots_view(before).remove(user@));
        }
        self.users = users;
        r
    }

    /// The fingers that a user has, in no particular order, each once.
    pub fn get_user_slots(&self, user: &str) -> (r: FingerSlots)
        ensures
            crate::assoc::assoc_map(r@) == fingers_of(self@, user@),
            crate::assoc::unique_keys(r@),
    {
        proof {
            use_type_invariant(self);
        }
        match assoc_find(&self.users, user) {
            None => {
                let r: FingerSlots = Vec::new();
                r
            },
            Some(i) => {
                let fs = &self.users[i].1;
                let mut r: FingerSlots = Vec::new();
                let mut k: usize = 0;
                assert(crate::assoc::unique_keys(fs@));
                while k < fs.len()
                    invariant
                        0 <= k <= fs@.len(),
                        r@.len() == k,
                        forall|j: int|
                            0 <= j < k ==> (#[trigger] r@[j]).0@ == fs@[j].0@ && r@[j].1
                                == fs@[j].1,
                        crate::assoc::assoc_map(r@) == crate::assoc::assoc_map(
                            fs@.take(k as int),
                        ),
                    decreases fs@.len() - k,
                {
                    let ghost before = r@;
                    r.push((fs[k].0.clone(), fs[k].1));
                    k = k + 1;
                    assert(r@.drop_last() =~= before);
                    assert(fs@.take(k as int).drop_last() =~= fs@.take(k - 1));
                }
                proof {
                    assert(fs@.take(k as int) =~= fs@);
                    assert forall|x: int, y: int|
                        0 <= x < r@.len() && 0 <= y < r@.len() && x != y implies #[trigger] r@[x].0@
                        != #[trigger] r@[y].0@ by {
                        assert(fs@[x].0@ != fs@[y].0@);
                    }
                }
                r
            },
        }
    }

    /// The names of a user's fingers, in alphabetical order.
    pub fn list_fingers(&self, user: &str) -> (r: Vec<String>)
        ensures
            is_sorted_listing(r@, fingers_of(self@, user@)),
    {
        let fs = self.get_user_slots(user);
        let mut r: Vec<String> = Vec::new();
        let mut k: usize = 0;
        while k < fs.len()
            invariant
                0 <= k <= fs@.len(),
                crate::assoc::unique_keys(fs@),
                forall|i: int, j: int|
                    0 <= i < j < r@.len() ==> crate::token::text_le(
                        #[trigger] r@[i]@,
                        #[trigger] r@[j]@,
                    ) && r@[i]@ != r@[j]@,
                forall|i: int|
                    0 <= i < r@.len() ==> exists|j: int|
                        0 <= j < k && #[trigger] fs@[j].0@ == #[trigger] r@[i]@,
                forall|j: int|
                    0 <= j < k ==> exists|i: int|
                        0 <= i < r@.len() && #[trigger] fs@[j].0@ == #[trigger] r@[i]@,
            decreases fs@.len() - k,
        {
            proof {
                assert forall|i: int| 0 <= i < r@.len() implies #[trigger] r@[i]@
                    != fs@[k as int].0@ by {
                    let j = choose|j: int| 0 <= j < k && #[trigger] fs@[j].0@ == r@[i]@;
                    assert(fs@[j].0@ != fs@[k as int].0@);
                }
            }
            let ghost before = r@;
            let p: usize = insert_sorted(&mut r, fs[k].0.clone());
            proof {
                assert(r@[p as int]@ == fs@[k as int].0@);
                assert forall|i: int| 0 <= i < r@.len() implies exists|j: int|
                    0 <= j < k + 1 && #[trigger] fs@[j].0@ == #[trigger] r@[i]@ by {
                    if i < p {
                        assert(r@[i] == before[i]);
                    } else if i > p {
                        assert(r@[i] == before[i - 1]);
                    } else {
                        assert(fs@[k as int].0@ == r@[i]@);
                    }
                }
                assert forall|j: int| 0 <= j < k + 1 implies exists|i: int|
                    0 <= i < r@.len() && #[trigger] fs@[j].0@ == #[trigger] r@[i]@ by {
                    if j < k {
                        let i = choose|i: int|
                            0 <= i < before.len() && fs@[j].0@ == #[trigger] before[i]@;
                        if i < p {
                            assert(r@[i] == before[i]);
                        } else {
                            assert(r@[i + 1] == before[i]);
                        }
                    } else {
                        assert(fs@[j].0@ == r@[p as int]@);
                    }
                }
            }
            k = k + 1;
        }
        proof {
            crate::assoc::lemma_assoc_dom(fs@);
            let m = fingers_of(self@, user@);
            assert forall|i: int| 0 <= i < r@.len() implies m.dom().contains(
                #[trigger] r@[i]@,
            ) by {
                let j = choose|j: int| 0 <= j < fs@.len() && #[trigger] fs@[j].0@ == r@[i]@;
                assert(m.dom().contains(fs@[j].0@));
            }
            assert forall|f: Seq<char>| #[trigger] m.dom().contains(f) implies exists|i: int|
                0 <= i < r@.len() && #[trigger] r@[i]@ == f by {
                let j = choose|j: int| 0 <= j < fs@.len() && #[trigger] fs@[j].0@ == f;
                assert(fs@[j].0@ == f);
            }
        }
        r
    }

    /// The slot of a user's finger.
    pub fn get_slot(&self, user: &str, finger: &str) -> (r: Option<u8>)
        ensures
            r == slot_of(self@, user@, finger@),
    {
        let fs = self.get_user_slots(user);
        match assoc_find(&fs, finger) {
            Some(i) => Some(fs[i].1),
            None => None,
        }
    }

    fn is_used(&self, slot: u8) -> (r: bool)
        ensures
            r == slot_used(self@, slot as int),
    {
        proof {
            use_type_invariant(self);
            crate::assoc::lemma_assoc_dom(self.users@);
            crate::assoc::lemma_assoc_value(self.users@);
        }
        let ghost us = self.users@;
        let mut i: usize = 0;
        while i < self.users.len()
            invariant
                0 <= i <= us.len(),
                us == self.users@,
                users_wf(us),
                self@ == slots_view(us),
                forall|k: int| 0 <= k < us.len() ==> self@.dom().contains(#[trigger] us[k].0@),
                forall|k: int|
                    0 <= k < us.len() ==> self@[#[trigger] us[k].0@] == crate::assoc::assoc_map(
                        us[k].1@,
                    ),
                forall|k: int, j: int|
                    0 <= k < i && 0 <= j < us[k].1@.len() ==> #[trigger] us[k].1@[j].1 != slot,
            decreases us.len() - i,
        {
            let fs = &self.users[i].1;
            let mut j: usize = 0;
            while j < fs.len()
                invariant
                    0 <= i < us.len(),
                    us == self.users@,
                    users_wf(us),
                    fs@ == us[i as int].1@,
                    0 <= j <= fs@.len(),
                    self@ == slots_view(us),
                    forall|k: int| 0 <= k < us.len() ==> self@.dom().contains(#[trigger] us[k].0@),
                    forall|k: int|
                        0 <= k < us.len() ==> self@[#[trigger] us[k].0@]
                            == crate::assoc::assoc_map(us[k].1@),
                    forall|q: int| 0 <= q < j ==> (#[trigger] fs@[q]).1 != slot,
                decreases fs@.len() - j,
            {
                if fs[j].1 == slot {
                    proof {
                        crate::assoc::lemma_assoc_dom(fs@);
                        crate::assoc::lemma_assoc_value(fs@);
                        let u = us[i as int].0@;
                        let f = fs@[j as int].0@;
                        assert(self@.dom().contains(u));
                        assert(slot_of(self@, u, f) == Some(slot));
                    }
                    return true;
                }
                j = j + 1;
            }
            i = i + 1;
        }
        proof {
            assert forall|u: Seq<char>, f: Seq<char>| !(#[trigger] slot_of(
                self@,
                u,
                f,
            ) matches Some(x) && x == slot as int) by {
                if slot_of(self@, u, f) is Some {
                    assert(crate::assoc::assoc_map(us).dom().contains(u));
                    let k = choose|k: int| 0 <= k < us.len() && #[trigger] us[k].0@ == u;
                    let fs = us[k].1@;
                    assert(self@[us[k].0@] == crate::assoc::assoc_map(fs));
                    crate::assoc::lemma_assoc_dom(fs);
                    crate::assoc::lemma_assoc_value(fs);
                    let j = choose|j: int| 0 <= j < fs.len() && #[trigger] fs[j].0@ == f;
                    assert(fs[j].0@ == f);
                    assert(us[k].1@[j].1 != slot);
                }
            }
        }
        false
    }

    /// The lowest slot that no finger lives in.
    pub fn allocate_slot(&self) -> (r: Result<u8, StorageError>)
        ensures
            match r {
                Ok(slot) => {
                    &&& slot < usable_slots(self.slot_capacity())
                    &&& !slot_used(self@, slot as int)
                    &&& forall|s: int| 0 <= s < slot ==> #[trigger] slot_used(self@, s)
                },
                Err(e) => {
                    &&& e@ == StorageErrorView::NoFreeSlot(self.slot_capacity())
                    &&& forall|s: int|
                        0 <= s < usable_slots(self.slot_capacity()) ==> #[trigger] slot_used(
                            self@,
                            s,
                        )
                },
            },
    {
        let cap: u16 = if self.capacity < 256 {
            self.capacity
        } else {
            256
        };
        let mut s: u16 = 0;
        while s < cap
            invariant
                0 <= s <= cap,
                cap == usable_slots(self.slot_capacity()),
                cap <= 256,
                forall|k: int| 0 <= k < s ==> #[trigger] slot_used(self@, k),
            decreases cap - s,
        {
            if !self.is_used(s as u8) {
                return Ok(s as u8);
            }
            s = s + 1;
        }
        Err(StorageError::NoFreeSlot(self.capacity))
    }

    /// Puts a user's finger into a slot.
    pub fn set_slot(&mut self, user: &str, finger: &str, slot: u8)
        ensures
            final(self)@ == with_slot(old(self)@, user@, finger@, slot),
            final(self).slot_capacity() == old(self).slot_capacity(),
    {
        let mut fs: FingerSlots = match self.take_user(user) {
            Some(fs) => fs,
            None => Vec::new(),
        };
        assert(crate::assoc::assoc_map(fs@) =~= fingers_of(old(self)@, user@));
        assoc_put(&mut fs, finger, slot);
        self.put_user(user, fs);
        assert(self@ =~= with_slot(old(self)@, user@, finger@, slot));
    }

    /// Forgets a user's finger, and the user with their last one. Returns the
    /// slot that the finger had.
    pub fn remove_finger(&mut self, user: &str, finger: &str) -> (r: Option<u8>)
        ensures
            r == slot_of(old(self)@, user@, finger@),
            final(self)@ == without_finger(old(self)@, user@, finger@),
            final(self).slot_capacity() == old(self).slot_capacity(),
    {
        match self.take_user(user) {
            None => {
                assert(self@ =~= old(self)@);
                None
            },
            Some(taken) => {
                let mut fs: FingerSlots = taken;
                let r = assoc_take(&mut fs, finger);
                proof {
                    lemma_empty_assoc(fs@);
                }
                if fs.len() > 0 {
                    self.put_user(user, fs);
                    assert(self@ =~= old(self)@.insert(user@, old(self)@[user@].remove(finger@)));
                }
                r
            },
        }
    }

    /// Everything in the registry, for a file.
    pub fn entries(&self) -> (r: &Vec<(String, FingerSlots)>)
        ensures
            crate::assoc::assoc_map(r@).map_values(
                |fs: FingerSlots| crate::assoc::assoc_map(fs@),
            ) == self@,
    {
        &self.users
    }
}

/// Puts a name into its place among sorted names.
fn insert_sorted(v: &mut Vec<String>, s: String) -> (p: usize)
    requires
        forall|i: int, j: int|
            0 <= i < j < old(v)@.len() ==> crate::token::text_le(
                #[trigger] old(v)@[i]@,
                #[trigger] old(v)@[j]@,
            ) && old(v)@[i]@ != old(v)@[j]@,
        forall|i: int| 0 <= i < old(v)@.len() ==> #[trigger] old(v)@[i]@ != s@,
    ensures
        p <= old(v)@.len(),
        final(v)@ == old(v)@.insert(p as int, s),
        forall|i: int, j: int|
            0 <= i < j < final(v)@.len() ==> crate::token::text_le(
                #[trigger] final(v)@[i]@,
                #[trigger] final(v)@[j]@,
            ) && final(v)@[i]@ != final(v)@[j]@,
{
    let ghost a = v@;
    let mut p: usize = 0;
    while p < v.len() && str_le(v[p].as_str(), s.as_str())
        invariant
            0 <= p <= v@.len(),
            v@ == a,
            forall|i: int| 0 <= i < p ==> crate::token::text_le(#[trigger] a[i]@, s@),
        decreases v@.len() - p,
    {
        p = p + 1;
    }
    proof {
        if p < a.len() {
            crate::token::lemma_text_le_total(a[p as int]@, s@);
        }
        assert forall|i: int| p <= i < a.len() implies crate::token::text_le(
            s@,
            #[trigger] a[i]@,
        ) by {
            if i > p {
                crate::token::lemma_text_le_transitive(s@, a[p as int]@, a[i]@);
            }
        }
    }
    v.insert(p, s);
    proof {
        let b = v@;
        assert forall|i: int, j: int| 0 <= i < j < b.len() implies crate::token::text_le(
            #[trigger] b[i]@,
            #[trigger] b[j]@,
        ) && b[i]@ != b[j]@ by {
            if i < p && j < p {
                assert(b[i] == a[i] && b[j] == a[j]);
            } else if i < p && j == p {
                assert(b[i] == a[i]);
            } else if i < p && j > p {
                assert(b[i] == a[i] && b[j] == a[j - 1]);
            } else if i == p {
                assert(b[j] == a[j - 1]);
            } else {
                assert(b[i] == a[i - 1] && b[j] == a[j - 1]);
            }
        }
    }
    p
}

// ---------- where the registry is kept ----------

/// A path with a part added to it.
pub open spec fn joined_path(base: Seq<char>, part: Seq<char>) -> Seq<char> {
    if base.len() == 0 || base.last() == '/' {
        base + part
    } else {
        base + "/"@ + part
    }
}

/// The directory for what is kept between runs: the one that the environment
/// names, or else one in the home directory.
pub open spec fn state_home(xdg_state: Option<Seq<char>>, home: Option<Seq<char>>) -> Seq<char> {
    match xdg_state {
        Some(dir) => dir,
        None => joined_path(
            joined_path(
                match home {
                    Some(dir) => dir,
                    None => "/tmp"@,
                },
                ".local"@,
            ),
            "state"@,
        ),
    }
}

/// Where the registry is kept unless another place is given.
pub open spec fn default_path(
    session: bool,
    xdg_state: Option<Seq<char>>,
    home: Option<Seq<char>>,
) -> Seq<char> {
    if session {
        joined_path(joined_path(state_home(xdg_state, home), "r503d"@), "users.json"@)
    } else {
        "/var/lib/r503d/users.json"@
    }
}

fn join_path(base: &str, part: &str) -> (path: String)
    ensures
        path@ == joined_path(base@, part@),
{
    let mut path = base.to_owned();
    let n: usize = base.unicode_len();
    if n > 0 && base.get_char(n - 1) != '/' {
        path.append("/");
    }
    path.append(part);
    path
}

/// Where the registry is kept unless another place is given: on the system bus
/// in one place, on the session bus with what the user keeps between runs.
/// `xdg_state` and `home` are what the environment says.
pub fn default_storage_path(session: bool, xdg_state: Option<&str>, home: Option<&str>) -> (path:
    String)
    ensures
        path@ == default_path(
            session,
            crate::token::optional_str(xdg_state),
            crate::token::optional_str(home),
        ),
{
    if !session {
        return "/var/lib/r503d/users.json".to_owned();
    }
    let dir = match xdg_state {
        Some(dir) => dir.to_owned(),
        None => {
            let home = match home {
                Some(dir) => dir,
                None => "/tmp",
            };
            join_path(join_path(home, ".local").as_str(), "state")
        },
    };
    join_path(join_path(dir.as_str(), "r503d").as_str(), "users.json")
}

// ---------- laws ----------

/// A finger put into a slot is found there, and every other finger is where it
/// was.
pub proof fn lemma_set_then_get(
    s: Slots,
    user: Seq<char>,
    finger: Seq<char>,
    slot: u8,
    u: Seq<char>,
    f: Seq<char>,
)
    ensures
        slot_of(with_slot(s, user, finger, slot), user, finger) == Some(slot),
        (u, f) != (user, finger) ==> slot_of(with_slot(s, user, finger, slot), u, f) == slot_of(
            s,
            u,
            f,
        ),
{
}

/// A finger that was forgotten is not found, and every other finger is where it
/// was.
pub proof fn lemma_remove_then_get(
    s: Slots,
    user: Seq<char>,
    finger: Seq<char>,
    u: Seq<char>,
    f: Seq<char>,
)
    ensures
        slot_of(without_finger(s, user, finger), user, finger) is None,
        (u, f) != (user, finger) ==> slot_of(without_finger(s, user, finger), u, f) == slot_of(
            s,
            u,
            f,
        ),
{
    if s.dom().contains(user) && s[user].remove(finger) == Map::<Seq<char>, u8>::empty() {
        if u == user && f != finger {
            assert(s[user].remove(finger).dom().contains(f) == s[user].dom().contains(f));
        }
    }
}

/// No two fingers share a slot.
pub open spec fn slots_distinct(s: Slots) -> bool {
    forall|u1: Seq<char>, f1: Seq<char>, u2: Seq<char>, f2: Seq<char>|
        #![trigger slot_of(s, u1, f1), slot_of(s, u2, f2)]
        slot_of(s, u1, f1) is Some && slot_of(s, u1, f1) == slot_of(s, u2, f2) ==> u1 == u2 && f1
            == f2
}

/// Putting a finger into a free slot, or back into its own, keeps the slots
/// apart; so does forgetting a finger.
pub proof fn lemma_slots_stay_distinct(s: Slots, user: Seq<char>, finger: Seq<char>, slot: u8)
    requires
        slots_distinct(s),
    ensures
        !slot_used(s, slot as int) || slot_of(s, user, finger) == Some(slot) ==> slots_distinct(
            with_slot(s, user, finger, slot),
        ),
        slots_distinct(without_finger(s, user, finger)),
{
    let t = with_slot(s, user, finger, slot);
    if !slot_used(s, slot as int) || slot_of(s, user, finger) == Some(slot) {
        assert forall|u1: Seq<char>, f1: Seq<char>, u2: Seq<char>, f2: Seq<char>|
            #![trigger slot_of(t, u1, f1), slot_of(t, u2, f2)]
            slot_of(t, u1, f1) is Some && slot_of(t, u1, f1) == slot_of(t, u2, f2) implies u1 == u2
            && f1 == f2 by {
            lemma_set_then_get(s, user, finger, slot, u1, f1);
            lemma_set_then_get(s, user, finger, slot, u2, f2);
            if (u1, f1) != (user, finger) {
                assert(slot_of(s, u1, f1) is Some);
            }
            if (u2, f2) != (user, finger) {
                assert(slot_of(s, u2, f2) is Some);
            }
        }
    }
    let w = without_finger(s, user, finger);
    assert forall|u1: Seq<char>, f1: Seq<char>, u2: Seq<char>, f2: Seq<char>|
        #![trigger slot_of(w, u1, f1), slot_of(w, u2, f2)]
        slot_of(w, u1, f1) is Some && slot_of(w, u1, f1) == slot_of(w, u2, f2) implies u1 == u2
        && f1 == f2 by {
        lemma_remove_then_get(s, user, finger, u1, f1);
        lemma_remove_then_get(s, user, finger, u2, f2);
        assert(slot_of(s, u1, f1) is Some);
    }
}

/// A finger has a slot exactly where its user is known with it, and then the one
/// registered there; and a slot is used exactly where some finger has it.
pub proof fn lemma_slot_is_what_is_registered(s: Slots, user: Seq<char>, finger: Seq<char>, slot: u8)
    ensures
        slot_of(s, user, finger) == Some(slot) <==> s.dom().contains(user) && s[user].dom().contains(
            finger,
        ) && s[user][finger] == slot,
        slot_of(s, user, finger) == Some(slot) ==> slot_used(s, slot as int),
        slot_used(s, slot as int) ==> exists|u: Seq<char>, f: Seq<char>|
            slot_of(s, u, f) == Some(slot),
{
    if slot_used(s, slot as int) {
        let (u, f) = choose|u: Seq<char>, f: Seq<char>|
            #[trigger] slot_of(s, u, f) matches Some(x) && x == slot as int;
        assert(slot_of(s, u, f) == Some(slot));
    }
}

/// As many slots can be handed out as the sensor has, as far as one byte can
/// name them.
pub proof fn lemma_usable_slots(capacity: u16, slot: u8)
    ensures
        slot < usable_slots(capacity) <==> slot < capacity,
        usable_slots(capacity) <= 256,
{
}

/// A user whose last finger is forgotten is forgotten; one who has another finger
/// stays; and nobody else comes or goes.
pub proof fn lemma_users_stay_with_their_fingers(
    s: Slots,
    user: Seq<char>,
    finger: Seq<char>,
    u: Seq<char>,
)
    ensures
        u != user ==> (without_finger(s, user, finger).dom().contains(u) <==> s.dom().contains(u)),
        without_finger(s, user, finger).dom().contains(user) <==> exists|f: Seq<char>|
            f != finger && (#[trigger] slot_of(s, user, f)) is Some,
        with_slot(s, user, finger, 0).dom().contains(u) <==> u == user || s.dom().contains(u),
{
    if s.dom().contains(user) {
        let left = s[user].remove(finger);
        if left == Map::<Seq<char>, u8>::empty() {
            assert forall|f: Seq<char>| f != finger implies (#[trigger] slot_of(
                s,
                user,
                f,
            )) is None by {
                assert(left.dom().contains(f) == s[user].dom().contains(f));
            }
        } else {
            if forall|f: Seq<char>| f != finger ==> (#[trigger] slot_of(s, user, f)) is None {
                assert forall|f: Seq<char>| !left.dom().contains(f) by {
                    if f != finger {
                        assert(slot_of(s, user, f) is None);
                    }
                }
                assert(left =~= Map::<Seq<char>, u8>::empty());
            }
        }
    }
}

/// On the system bus the registry has one place. On the session bus it is under
/// the directory that the environment names for what is kept between runs, or
/// else under the home directory; and it always has the same name.
pub proof fn lemma_where_the_registry_is(
    dir: Seq<char>,
    home: Seq<char>,
    xdg_state: Option<Seq<char>>,
    env_home: Option<Seq<char>>,
)
    requires
        dir.len() > 0,
        dir.last() != '/',
        home.len() > 0,
        home.last() != '/',
    ensures
        default_path(false, xdg_state, env_home) == "/var/lib/r503d/users.json"@,
        default_path(true, Some(dir), env_home) == dir + "/r503d/users.json"@,
        default_path(true, None, Some(home)) == home + "/.local/state/r503d/users.json"@,
        default_path(true, None, None) == "/tmp/.local/state/r503d/users.json"@,
        default_path(true, Some(dir + "/"@), env_home) == default_path(true, Some(dir), env_home),
{
    reveal_strlit("/");
    reveal_strlit("r503d");
    reveal_strlit("users.json");
    reveal_strlit(".local");
    reveal_strlit("state");
    reveal_strlit("/tmp");
    reveal_strlit("/r503d/users.json");
    reveal_strlit("/.local/state/r503d/users.json");
    reveal_strlit("/tmp/.local/state/r503d/users.json");
    assert(default_path(true, Some(dir), env_home) =~= dir + "/r503d/users.json"@);
    assert(default_path(true, Some(dir + "/"@), env_home) =~= dir + "/r503d/users.json"@);
    assert(default_path(true, None, Some(home)) =~= home + "/.local/state/r503d/users.json"@);
    assert(default_path(true, None, None) =~= "/tmp/.local/state/r503d/users.json"@);
}

/// An error's words end with the reason that was given, or name the capacity.
pub proof fn lemma_error_words(why: Seq<char>, capacity: u16)
    ensures
        ({
            let t = storage_error_text(StorageErrorView::Io(why));
            t.skip(t.len() - why.len()) == why
        }),
        ({
            let t = storage_error_text(StorageErrorView::Parse(why));
            t.skip(t.len() - why.len()) == why
        }),
        crate::token::contains_text(
            storage_error_text(StorageErrorView::NoFreeSlot(capacity)),
            crate::text::decimal(capacity as nat),
        ),
{
    reveal_strlit("no free slots (capacity=");
    let a = storage_error_text(StorageErrorView::Io(why));
    assert(a.skip(a.len() - why.len()) =~= why);
    let b = storage_error_text(StorageErrorView::Parse(why));
    assert(b.skip(b.len() - why.len()) =~= why);
    let c = storage_error_text(StorageErrorView::NoFreeSlot(capacity));
    let d = crate::text::decimal(capacity as nat);
    assert(c.subrange(24, 24 + d.len() as int) =~= d);
}

} // verus!
