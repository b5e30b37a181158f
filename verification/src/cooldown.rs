//! Command cooldowns: global or per user, optionally limited to one key. Points in
//! time and durations are nanoseconds; the caller supplies the current time.

use vstd::prelude::*;

use crate::text::str_eq;

verus! {

/// Whom a cooldown holds back.
#[derive(Clone, Copy, Debug, PartialEq, Eq, Structural)]
pub enum CooldownType {
    User(u64),
    Global,
}

/// One cooldown: it started at `expire - duration` and ends at `expire`.
#[derive(Debug)]
pub struct Cooldown {
    duration: u128,
    expire: u128,
    key: Option<String>,
    cooldown_info: CooldownType,
}

/// The key of a cooldown as text.
pub open spec fn key_view(k: Option<String>) -> Option<Seq<char>> {
    match k {
        Some(s) => Some(s@),
        None => None,
    }
}

/// Two cooldowns are the same when all their fields are.
pub open spec fn same_cooldown(a: Cooldown, b: Cooldown) -> bool {
    a.spec_duration() == b.spec_duration() && a.spec_expire() == b.spec_expire() && a.spec_key()
        == b.spec_key() && a.spec_info() == b.spec_info()
}

/// A cooldown holds back `user` for `key` when it has no key or the same key, and it
/// is global or for that user.
pub open spec fn applies(c: Cooldown, key: Option<Seq<char>>, user: u64) -> bool {
    (c.spec_key() is None || c.spec_key() == key) && match c.spec_info() {
        CooldownType::Global => true,
        CooldownType::User(u) => u == user,
    }
}

/// The first cooldown that holds back `user` for `key`.
pub open spec fn first_applicable(cs: Seq<Cooldown>, key: Option<Seq<char>>, user: u64) -> Option<
    int,
>
    decreases cs.len(),
{
    if cs.len() == 0 {
        None
    } else {
        match first_applicable(cs.drop_last(), key, user) {
            Some(i) => Some(i),
            None => if applies(cs.last(), key, user) {
                Some(cs.len() - 1)
            } else {
                None
            },
        }
    }
}

/// The first index holding a cooldown that is the same as `c`.
pub open spec fn first_same(cs: Seq<Cooldown>, c: Cooldown) -> Option<int>
    decreases cs.len(),
{
    if cs.len() == 0 {
        None
    } else {
        match first_same(cs.drop_last(), c) {
            Some(i) => Some(i),
            None => if same_cooldown(cs.last(), c) {
                Some(cs.len() - 1)
            } else {
                None
            },
        }
    }
}

impl Cooldown {
    #[verifier::type_invariant]
    spec fn well_formed(self) -> bool {
        self.duration <= self.expire
    }

    pub closed spec fn spec_duration(self) -> u128 {
        self.duration
    }

    pub closed spec fn spec_expire(self) -> u128 {
        self.expire
    }

    pub closed spec fn spec_key(self) -> Option<Seq<char>> {
        key_view(self.key)
    }

    pub closed spec fn spec_info(self) -> CooldownType {
        self.cooldown_info
    }

    /// A cooldown of `duration` starting at `now`.
    pub fn new(duration: u128, key: Option<String>, cooldown_info: CooldownType, now: u128) -> (c:
        Cooldown)
        requires
            now + duration <= u128::MAX,
        ensures
            c.spec_duration() == duration,
            c.spec_expire() == now + duration,
            c.spec_key() == key_view(key),
            c.spec_info() == cooldown_info,
    {
        Cooldown { duration, expire: now + duration, key, cooldown_info }
    }

    /// The length of the cooldown.
    pub fn duration(&self) -> (r: u128)
        ensures
            r == self.spec_duration(),
    {
        self.duration
    }

    /// When the cooldown ends.
    pub fn expire(&self) -> (r: u128)
        ensures
            r == self.spec_expire(),
    {
        self.expire
    }

    /// When the cooldown started.
    pub fn start(&self) -> (r: u128)
        ensures
            r == self.spec_expire() - self.spec_duration(),
    {
        proof {
            use_type_invariant(self);
        }
        self.expire - self.duration
    }

    /// A copy of the cooldown.
    pub fn duplicate(&self) -> (r: Cooldown)
        ensures
            same_cooldown(r, *self),
    {
        proof {
            use_type_invariant(self);
        }
        let key = match &self.key {
            Some(k) => Some(k.clone()),
            None => None,
        };
        Cooldown {
            duration: self.duration,
            expire: self.expire,
            key,
            cooldown_info: self.cooldown_info,
        }
    }

    fn same_as(&self, other: &Cooldown) -> (r: bool)
        ensures
            r == same_cooldown(*self, *other),
    {
        let keys_equal = match (&self.key, &other.key) {
            (Some(a), Some(b)) => str_eq(a.as_str(), b.as_str()),
            (None, None) => true,
            _ => false,
        };
        self.duration == other.duration && self.expire == other.expire && keys_equal
            && self.cooldown_info == other.cooldown_info
    }

    fn applies_to(&self, key: &Option<String>, user: u64) -> (r: bool)
        ensures
            r == applies(*self, key_view(*key), user),
    {
        let key_ok = match (&self.key, key) {
            (None, _) => true,
            (Some(a), Some(b)) => str_eq(a.as_str(), b.as_str()),
            (Some(_), None) => false,
        };
        let user_ok = match self.cooldown_info {
            CooldownType::Global => true,
            CooldownType::User(u) => u == user,
        };
        key_ok && user_ok
    }
}

/// The cooldowns in force, in the order they were added.
#[derive(Debug)]
pub struct Cooldowns {
    pub items: Vec<Cooldown>,
}

/// The time left of the first cooldown that holds back `user` for `key` at `now`.
pub open spec fn time_left(cs: Seq<Cooldown>, key: Option<Seq<char>>, user: u64, now: u128) -> Option<
    int,
> {
    match first_applicable(cs, key, user) {
        Some(i) => Some(cs[i].spec_duration() - (now - (cs[i].spec_expire() - cs[i].spec_duration()))),
        None => None,
    }
}

/// Reading the time left needs the first applicable cooldown to have started and not
/// to have ended at `now`.
pub open spec fn readable_at(cs: Seq<Cooldown>, key: Option<Seq<char>>, user: u64, now: u128) -> bool {
    match first_applicable(cs, key, user) {
        Some(i) => cs[i].spec_expire() - cs[i].spec_duration() <= now && now <= cs[i].spec_expire(),
        None => true,
    }
}

impl Cooldowns {
    /// No cooldowns.
    pub fn new() -> (r: Cooldowns)
        ensures
            r.items@ == Seq::<Cooldown>::empty(),
    {
        Cooldowns { items: Vec::new() }
    }

    /// Adds a cooldown of `duration` from `now` and hands back a copy of it, by which
    /// it can be removed when it ends.
    pub fn add_cooldown(
        &mut self,
        duration: u128,
        key: Option<String>,
        cooldown_type: CooldownType,
        now: u128,
    ) -> (c: Cooldown)
        requires
            now + duration <= u128::MAX,
        ensures
            final(self).items@.len() == old(self).items@.len() + 1,
            final(self).items@.drop_last() == old(self).items@,
            same_cooldown(final(self).items@.last(), c),
            c.spec_duration() == duration,
            c.spec_expire() == now + duration,
            c.spec_key() == key_view(key),
            c.spec_info() == cooldown_type,
    {
        let cooldown = Cooldown::new(duration, key, cooldown_type, now);
        let copy = cooldown.duplicate();
        self.items.push(cooldown);
        assert(self.items@.drop_last() =~= old(self).items@);
        copy
    }

    /// Adds a cooldown without a key that holds back everyone.
    pub fn add_global_cooldown(&mut self, duration: u128, now: u128) -> (c: Cooldown)
        requires
            now + duration <= u128::MAX,
        ensures
            final(self).items@.len() == old(self).items@.len() + 1,
            final(self).items@.drop_last() == old(self).items@,
            same_cooldown(final(self).items@.last(), c),
            c.spec_duration() == duration,
            c.spec_expire() == now + duration,
            c.spec_key() is None,
            c.spec_info() == CooldownType::Global,
    {
        self.add_cooldown(duration, None, CooldownType::Global, now)
    }

    /// Adds a cooldown without a key that holds back `user`.
    pub fn add_user_cooldown(&mut self, duration: u128, user: u64, now: u128) -> (c: Cooldown)
        requires
            now + duration <= u128::MAX,
        ensures
            final(self).items@.len() == old(self).items@.len() + 1,
            final(self).items@.drop_last() == old(self).items@,
            same_cooldown(final(self).items@.last(), c),
            c.spec_duration() == duration,
            c.spec_expire() == now + duration,
            c.spec_key() is None,
            c.spec_info() == CooldownType::User(user),
    {
        self.add_cooldown(duration, None, CooldownType::User(user), now)
    }

    /// Adds a cooldown for `key` that holds back everyone.
    pub fn add_global_cooldown_key(&mut self, key: String, duration: u128, now: u128) -> (c: Cooldown)
        requires
            now + duration <= u128::MAX,
        ensures
            final(self).items@.len() == old(self).items@.len() + 1,
            final(self).items@.drop_last() == old(self).items@,
            same_cooldown(final(self).items@.last(), c),
            c.spec_duration() == duration,
            c.spec_expire() == now + duration,
            c.spec_key() == Some(key@),
            c.spec_info() == CooldownType::Global,
    {
        self.add_cooldown(duration, Some(key), CooldownType::Global, now)
    }

    /// Adds a cooldown for `key` that holds back `user`.
    pub fn add_user_cooldown_key(&mut self, key: String, duration: u128, user: u64, now: u128) -> (c:
        Cooldown)
        requires
            now + duration <= u128::MAX,
        ensures
            final(self).items@.len() == old(self).items@.len() + 1,
            final(self).items@.drop_last() == old(self).items@,
            same_cooldown(final(self).items@.last(), c),
            c.spec_duration() == duration,
            c.spec_expire() == now + duration,
            c.spec_key() == Some(key@),
            c.spec_info() == CooldownType::User(user),
    {
        self.add_cooldown(duration, Some(key), CooldownType::User(user), now)
    }

    /// Removes the first cooldown that is the same as `cooldown`, moving the last one
    /// into its place (`Vec::swap_remove`); nothing changes when there is none.
    pub fn remove_cooldown(&mut self, cooldown: &Cooldown)
        ensures
            match first_same(old(self).items@, *cooldown) {
                Some(i) => final(self).items@ == old(self).items@.update(
                    i,
                    old(self).items@.last(),
                ).drop_last(),
                None => final(self).items@ == old(self).items@,
            },
    {
        let ghost all = self.items@;
        let mut i: usize = 0;
        while i < self.items.len()
            invariant
                i <= self.items@.len(),
                self.items@ == all,
                all == old(self).items@,
                first_same(all.take(i as int), *cooldown) is None,
            decreases self.items@.len() - i,
        {
            assert(all.take(i + 1).drop_last() =~= all.take(i as int));
            if self.items[i].same_as(cooldown) {
                proof {
                    lemma_first_same_prefix(all, *cooldown, i + 1);
                }
                let ghost before = self.items@;
                assert(before == old(self).items@);
                self.items.swap_remove(i);
                assert(self.items@ == before.update(i as int, before.last()).drop_last());
                return;
            }
            i = i + 1;
        }
        assert(all.take(all.len() as int) =~= all);
    }

    /// The index of the first cooldown that holds back `user` for `key`.
    pub fn first_applicable_index(&self, key: &Option<String>, user: u64) -> (r: Option<usize>)
        ensures
            match first_applicable(self.items@, key_view(*key), user) {
                Some(i) => r == Some(i as usize),
                None => r is None,
            },
            r matches Some(i) ==> i < self.items@.len() && first_applicable(
                self.items@,
                key_view(*key),
                user,
            ) == Some(i as int),
    {
        let ghost all = self.items@;
        let mut i: usize = 0;
        while i < self.items.len()
            invariant
                i <= all.len(),
                self.items@ == all,
                first_applicable(all.take(i as int), key_view(*key), user) is None,
            decreases all.len() - i,
        {
            assert(all.take(i + 1).drop_last() =~= all.take(i as int));
            if self.items[i].applies_to(key, user) {
                proof {
                    lemma_first_applicable_prefix(all, key_view(*key), user, i + 1);
                }
                return Some(i);
            }
            i = i + 1;
        }
        assert(all.take(all.len() as int) =~= all);
        None
    }

    /// Whether the cooldown that holds back `user` for `key` can be read at `now`: it
    /// has started and not yet ended (reading one outside that span aborts).
    pub fn readable(&self, key: &Option<String>, user: u64, now: u128) -> (r: bool)
        ensures
            r == readable_at(self.items@, key_view(*key), user, now),
    {
        match self.first_applicable_index(key, user) {
            None => true,
            Some(i) => {
                let c = &self.items[i];
                c.start() <= now && now <= c.expire()
            },
        }
    }

    /// The time left of the first cooldown that holds back `user` for `key` (a keyless
    /// cooldown holds back every key), or `None` when no cooldown does.
    pub fn has_cooldown(&self, key: Option<String>, user: u64, now: u128) -> (r: Option<u128>)
        requires
            readable_at(self.items@, key_view(key), user, now),
        ensures
            match time_left(self.items@, key_view(key), user, now) {
                Some(t) => r == Some(t as u128),
                None => r is None,
            },
    {
        match self.first_applicable_index(&key, user) {
            Some(i) => {
                let c = &self.items[i];
                proof {
                    use_type_invariant(c);
                    assert(first_applicable(self.items@, key_view(key), user) == Some(i as int));
                    assert(*c == self.items@[i as int]);
                    assert(c.expire - c.duration <= now && now <= c.expire);
                }
                let start = c.expire - c.duration;
                Some(c.duration - (now - start))
            },
            None => None,
        }
    }

    /// The time left of a cooldown without key for `user`.
    pub fn check_cooldown(&self, user: u64, now: u128) -> (r: Option<u128>)
        requires
            readable_at(self.items@, None, user, now),
        ensures
            match time_left(self.items@, None, user, now) {
                Some(t) => r == Some(t as u128),
                None => r is None,
            },
    {
        self.has_cooldown(None, user, now)
    }

    /// The time left of a cooldown for `user` and `key`.
    pub fn check_cooldown_key(&self, user: u64, key: String, now: u128) -> (r: Option<u128>)
        requires
            readable_at(self.items@, Some(key@), user, now),
        ensures
            match time_left(self.items@, Some(key@), user, now) {
                Some(t) => r == Some(t as u128),
                None => r is None,
            },
    {
        self.has_cooldown(Some(key), user, now)
    }
}

proof fn lemma_first_same_prefix(all: Seq<Cooldown>, c: Cooldown, k: int)
    requires
        0 < k <= all.len(),
        first_same(all.take(k - 1), c) is None,
        same_cooldown(all[k - 1], c),
    ensures
        first_same(all, c) == Some(k - 1),
    decreases all.len(),
{
    if k < all.len() {
        assert(all.drop_last().take(k - 1) =~= all.take(k - 1));
        lemma_first_same_prefix(all.drop_last(), c, k);
    } else {
        assert(all.drop_last() =~= all.take(k - 1));
    }
}

proof fn lemma_first_applicable_prefix(all: Seq<Cooldown>, key: Option<Seq<char>>, user: u64, k: int)
    requires
        0 < k <= all.len(),
        first_applicable(all.take(k - 1), key, user) is None,
        applies(all[k - 1], key, user),
    ensures
        first_applicable(all, key, user) == Some(k - 1),
    decreases all.len(),
{
    if k < all.len() {
        assert(all.drop_last().take(k - 1) =~= all.take(k - 1));
        lemma_first_applicable_prefix(all.drop_last(), key, user, k);
    } else {
        assert(all.drop_last() =~= all.take(k - 1));
    }
}

/// A cooldown that was just added holds back everyone it applies to: some cooldown is
/// found for them.
pub proof fn lemma_added_cooldown_found(cs: Seq<Cooldown>, c: Cooldown, key: Option<Seq<char>>, user: u64)
    requires
        applies(c, key, user),
    ensures
        first_applicable(cs.push(c), key, user) is Some,
{
    assert(cs.push(c).drop_last() =~= cs);
}

/// Removing a cooldown right after adding it restores the list, when no cooldown the
/// same as it was there before.
pub proof fn lemma_remove_undoes_add(cs: Seq<Cooldown>, c: Cooldown, d: Cooldown)
    requires
        first_same(cs, d) is None,
        same_cooldown(c, d),
    ensures
        first_same(cs.push(c), d) == Some(cs.len() as int),
        cs.push(c).update(cs.len() as int, cs.push(c).last()).drop_last() == cs,
{
    assert(cs.push(c).drop_last() =~= cs);
    assert(cs.push(c).update(cs.len() as int, cs.push(c).last()).drop_last() =~= cs);
}

proof fn lemma_first_applicable_in_range(cs: Seq<Cooldown>, key: Option<Seq<char>>, user: u64)
    ensures
        first_applicable(cs, key, user) matches Some(i) ==> 0 <= i < cs.len() && applies(cs[i], key, user),
    decreases cs.len(),
{
    if cs.len() > 0 {
        lemma_first_applicable_in_range(cs.drop_last(), key, user);
    }
}

/// A cooldown added at the end changes the time left of a user only where no earlier
/// cooldown holds them back: then it is the new cooldown's time left, where that one
/// applies to them, and still none where it does not.
pub proof fn lemma_time_left_push(cs: Seq<Cooldown>, c: Cooldown, key: Option<Seq<char>>, user: u64, now: u128)
    ensures
        time_left(cs.push(c), key, user, now) == match time_left(cs, key, user, now) {
            Some(t) => Some(t),
            None => if applies(c, key, user) {
                Some(c.spec_duration() - (now - (c.spec_expire() - c.spec_duration())))
            } else {
                None
            },
        },
{
    let all = cs.push(c);
    assert(all.drop_last() =~= cs);
    assert(all.last() == c);
    lemma_first_applicable_in_range(cs, key, user);
    match first_applicable(cs, key, user) {
        Some(i) => {
            assert(first_applicable(all, key, user) == Some(i));
            assert(all[i] == cs[i]);
        },
        None => {
            assert(first_applicable(all, key, user) == if applies(c, key, user) {
                Some(cs.len() as int)
            } else {
                None
            });
        },
    }
}

} // verus!
