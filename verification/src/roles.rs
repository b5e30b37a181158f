//! Role bookkeeping: which roles a punished member keeps and loses, which roles come
//! back when the punishment ends, who may act on whom, and the channel overwrite that
//! keeps muted members quiet.

use vstd::prelude::*;

verus! {

/// What the logic reads of a guild role.
#[derive(Clone, Copy, Debug, PartialEq, Eq, Structural)]
pub struct RoleInfo {
    pub id: u64,
    pub position: i64,
    /// Managed by an integration; such roles cannot be taken away.
    pub managed: bool,
}

/// Roles are ordered by position, and by id among equal positions.
pub open spec fn key_lt(a: (i64, u64), b: (i64, u64)) -> bool {
    a.0 < b.0 || (a.0 == b.0 && a.1 < b.1)
}

/// The key of the highest role (`Iterator::max` under the role order), `None` for none.
pub open spec fn top_key(rs: Seq<RoleInfo>) -> Option<(i64, u64)>
    decreases rs.len(),
{
    if rs.len() == 0 {
        None
    } else {
        let k = (rs.last().position, rs.last().id);
        match top_key(rs.drop_last()) {
            None => Some(k),
            Some(t) => if key_lt(k, t) {
                Some(t)
            } else {
                Some(k)
            },
        }
    }
}

/// The highest position among the roles, or 0 for none.
pub open spec fn top_position(rs: Seq<RoleInfo>) -> i64
    decreases rs.len(),
{
    if rs.len() == 0 {
        0
    } else if rs.len() == 1 {
        rs[0].position
    } else {
        let p = top_position(rs.drop_last());
        if rs.last().position > p {
            rs.last().position
        } else {
            p
        }
    }
}

/// The ids of the managed roles, in order.
pub open spec fn managed_ids(rs: Seq<RoleInfo>) -> Seq<u64>
    decreases rs.len(),
{
    if rs.len() == 0 {
        seq![]
    } else if rs.last().managed {
        managed_ids(rs.drop_last()).push(rs.last().id)
    } else {
        managed_ids(rs.drop_last())
    }
}

/// The ids of the roles that are not in `keep`, in order.
pub open spec fn ids_outside(rs: Seq<RoleInfo>, keep: Seq<u64>) -> Seq<u64>
    decreases rs.len(),
{
    if rs.len() == 0 {
        seq![]
    } else if keep.contains(rs.last().id) {
        ids_outside(rs.drop_last(), keep)
    } else {
        ids_outside(rs.drop_last(), keep).push(rs.last().id)
    }
}

/// The elements of `s` that are in `pool`, in order.
pub open spec fn kept_in(s: Seq<u64>, pool: Seq<u64>) -> Seq<u64>
    decreases s.len(),
{
    if s.len() == 0 {
        seq![]
    } else if pool.contains(s.last()) {
        kept_in(s.drop_last(), pool).push(s.last())
    } else {
        kept_in(s.drop_last(), pool)
    }
}

/// The elements of `s` that are not in `pool`, in order.
pub open spec fn dropped_from(s: Seq<u64>, pool: Seq<u64>) -> Seq<u64>
    decreases s.len(),
{
    if s.len() == 0 {
        seq![]
    } else if pool.contains(s.last()) {
        dropped_from(s.drop_last(), pool)
    } else {
        dropped_from(s.drop_last(), pool).push(s.last())
    }
}

/// The roles a member keeps under a punishment role (being scrim banned or frozen):
/// the managed ones, then the punishment role itself.
pub open spec fn restricted_roles(rs: Seq<RoleInfo>, punishment: u64) -> Seq<u64> {
    managed_ids(rs).push(punishment)
}

/// The roles a member loses under a punishment role, in their order.
pub open spec fn removed_roles(rs: Seq<RoleInfo>, punishment: u64) -> Seq<u64> {
    ids_outside(rs, restricted_roles(rs, punishment))
}

/// The roles given back when a freeze ends: the stored ones, with the member role
/// added when it is not among them.
pub open spec fn freeze_return_roles(stored: Seq<u64>, member_role: u64) -> Seq<u64> {
    if stored.contains(member_role) {
        stored
    } else {
        stored.push(member_role)
    }
}

/// The roles a member has after being unfrozen: their managed roles, then the roles
/// given back that still exist in the guild.
pub open spec fn unfrozen_roles(
    current: Seq<RoleInfo>,
    stored: Seq<u64>,
    member_role: u64,
    guild_roles: Seq<u64>,
) -> Seq<u64> {
    managed_ids(current) + kept_in(freeze_return_roles(stored, member_role), guild_roles)
}

/// No element occurs twice.
pub open spec fn no_duplicates(s: Seq<u64>) -> bool {
    forall|i: int, j: int| 0 <= i < j < s.len() ==> s[i] != s[j]
}

/// A member under a running scrim ban must be corrected when one of their roles is
/// neither managed nor the ban role, or when they lack the ban role.
pub open spec fn ban_needs_enforcing(rs: Seq<RoleInfo>, banned: u64) -> bool {
    !(forall|i: int| 0 <= i < rs.len() ==> (#[trigger] rs[i]).managed || rs[i].id == banned)
        || !(exists|i: int| 0 <= i < rs.len() && (#[trigger] rs[i]).id == banned)
}

/// `executor` may moderate `target`: the executor's highest role is strictly above the
/// target's (a member without roles is below everyone) and the target is no bot.
pub open spec fn may_moderate(
    target: Seq<RoleInfo>,
    executor: Seq<RoleInfo>,
    target_is_bot: bool,
) -> bool {
    !target_is_bot && match top_key(executor) {
        None => false,
        Some(e) => match top_key(target) {
            None => true,
            Some(t) => key_lt(t, e),
        },
    }
}

/// Whether `v` holds `x`.
pub fn holds(v: &Vec<u64>, x: u64) -> (r: bool)
    ensures
        r == v@.contains(x),
{
    let mut i: usize = 0;
    while i < v.len()
        invariant
            i <= v.len(),
            forall|j: int| 0 <= j < i ==> v@[j] != x,
        decreases v.len() - i,
    {
        if v[i] == x {
            assert(v@[i as int] == x);
            return true;
        }
        i = i + 1;
    }
    false
}

/// The key of the highest role.
pub fn top_role_key(rs: &Vec<RoleInfo>) -> (r: Option<(i64, u64)>)
    ensures
        r == top_key(rs@),
{
    let mut best: Option<(i64, u64)> = None;
    for i in 0..rs.len()
        invariant
            best == top_key(rs@.take(i as int)),
    {
        assert(rs@.take(i + 1).drop_last() =~= rs@.take(i as int));
        let k = (rs[i].position, rs[i].id);
        best = match best {
            None => Some(k),
            Some(t) => if k.0 < t.0 || (k.0 == t.0 && k.1 < t.1) {
                Some(t)
            } else {
                Some(k)
            },
        };
    }
    assert(rs@.take(rs@.len() as int) =~= rs@);
    best
}

/// The highest role position, or 0 without roles.
pub fn top_role_position(rs: &Vec<RoleInfo>) -> (r: i64)
    ensures
        r == top_position(rs@),
{
    if rs.len() == 0 {
        return 0;
    }
    let mut best: i64 = rs[0].position;
    let mut i: usize = 1;
    assert(rs@.take(1) =~= seq![rs@[0]]);
    while i < rs.len()
        invariant
            1 <= i <= rs.len(),
            best == top_position(rs@.take(i as int)),
        decreases rs.len() - i,
    {
        assert(rs@.take(i + 1).drop_last() =~= rs@.take(i as int));
        if rs[i].position > best {
            best = rs[i].position;
        }
        i = i + 1;
    }
    assert(rs@.take(rs@.len() as int) =~= rs@);
    best
}

/// Whether the executor may ban or time out the target (see [`may_moderate`]).
pub fn can_moderate(target: &Vec<RoleInfo>, executor: &Vec<RoleInfo>, target_is_bot: bool) -> (r:
    bool)
    ensures
        r == may_moderate(target@, executor@, target_is_bot),
{
    let t = top_role_key(target);
    let e = top_role_key(executor);
    if target_is_bot {
        return false;
    }
    match e {
        None => false,
        Some(e) => match t {
            None => true,
            Some(t) => t.0 < e.0 || (t.0 == e.0 && t.1 < e.1),
        },
    }
}

/// Whether the executor may freeze the target: the executor's highest position is
/// strictly above the target's.
pub fn can_freeze(executor: &Vec<RoleInfo>, target: &Vec<RoleInfo>) -> (r: bool)
    ensures
        r == (top_position(executor@) > top_position(target@)),
{
    top_role_position(executor) > top_role_position(target)
}

/// The ids of the managed roles.
pub fn managed_role_ids(rs: &Vec<RoleInfo>) -> (r: Vec<u64>)
    ensures
        r@ == managed_ids(rs@),
{
    let mut r: Vec<u64> = Vec::new();
    for i in 0..rs.len()
        invariant
            r@ == managed_ids(rs@.take(i as int)),
    {
        assert(rs@.take(i + 1).drop_last() =~= rs@.take(i as int));
        if rs[i].managed {
            r.push(rs[i].id);
        }
    }
    assert(rs@.take(rs@.len() as int) =~= rs@);
    r
}

/// The ids of the roles not in `keep`.
pub fn role_ids_outside(rs: &Vec<RoleInfo>, keep: &Vec<u64>) -> (r: Vec<u64>)
    ensures
        r@ == ids_outside(rs@, keep@),
{
    let mut r: Vec<u64> = Vec::new();
    for i in 0..rs.len()
        invariant
            r@ == ids_outside(rs@.take(i as int), keep@),
    {
        assert(rs@.take(i + 1).drop_last() =~= rs@.take(i as int));
        if !holds(keep, rs[i].id) {
            r.push(rs[i].id);
        }
    }
    assert(rs@.take(rs@.len() as int) =~= rs@);
    r
}

/// The elements of `s` that are in `pool`.
pub fn keep_in(s: &Vec<u64>, pool: &Vec<u64>) -> (r: Vec<u64>)
    ensures
        r@ == kept_in(s@, pool@),
{
    let mut r: Vec<u64> = Vec::new();
    for i in 0..s.len()
        invariant
            r@ == kept_in(s@.take(i as int), pool@),
    {
        assert(s@.take(i + 1).drop_last() =~= s@.take(i as int));
        if holds(pool, s[i]) {
            r.push(s[i]);
        }
    }
    assert(s@.take(s@.len() as int) =~= s@);
    r
}

/// The elements of `s` that are not in `pool`.
pub fn drop_from(s: &Vec<u64>, pool: &Vec<u64>) -> (r: Vec<u64>)
    ensures
        r@ == dropped_from(s@, pool@),
{
    let mut r: Vec<u64> = Vec::new();
    for i in 0..s.len()
        invariant
            r@ == dropped_from(s@.take(i as int), pool@),
    {
        assert(s@.take(i + 1).drop_last() =~= s@.take(i as int));
        if !holds(pool, s[i]) {
            r.push(s[i]);
        }
    }
    assert(s@.take(s@.len() as int) =~= s@);
    r
}

/// The roles kept and the roles taken when a member gets a punishment role.
pub fn restrict_roles(rs: &Vec<RoleInfo>, punishment: u64) -> (r: (Vec<u64>, Vec<u64>))
    ensures
        r.0@ == restricted_roles(rs@, punishment),
        r.1@ == removed_roles(rs@, punishment),
{
    let mut kept = managed_role_ids(rs);
    kept.push(punishment);
    let removed = role_ids_outside(rs, &kept);
    (kept, removed)
}

/// Whether a member under a running scrim ban must be corrected.
pub fn ban_must_be_enforced(rs: &Vec<RoleInfo>, banned: u64) -> (r: bool)
    ensures
        r == ban_needs_enforcing(rs@, banned),
{
    let mut all_ok = true;
    let mut any_banned = false;
    for i in 0..rs.len()
        invariant
            all_ok == (forall|j: int| 0 <= j < i ==> (#[trigger] rs@[j]).managed || rs@[j].id
                == banned),
            any_banned == (exists|j: int| 0 <= j < i && (#[trigger] rs@[j]).id == banned),
    {
        if !(rs[i].managed || rs[i].id == banned) {
            all_ok = false;
        }
        if rs[i].id == banned {
            any_banned = true;
        }
    }
    !all_ok || !any_banned
}

/// Membership in a sequence with one more element.
pub proof fn lemma_push_contains<T>(s: Seq<T>, x: T, y: T)
    ensures
        s.push(x).contains(y) <==> (s.contains(y) || y == x),
{
    if s.contains(y) {
        let k = choose|k: int| 0 <= k < s.len() && s[k] == y;
        assert(s.push(x)[k] == y);
    }
    if y == x {
        assert(s.push(x)[s.len() as int] == y);
    }
    if s.push(x).contains(y) {
        let k = choose|k: int| 0 <= k < s.push(x).len() && s.push(x)[k] == y;
        if k < s.len() {
            assert(s[k] == y);
        }
    }
}

proof fn lemma_union_step(before: Seq<u64>, start: Seq<u64>, prefix: Seq<u64>, x: u64)
    requires
        forall|y: u64| before.contains(y) <==> (start.contains(y) || prefix.contains(y)),
    ensures
        forall|y: u64| before.contains(x) ==> (before.contains(y) <==> (start.contains(y) || prefix.push(x).contains(y))),
        forall|y: u64| !before.contains(x) ==> (before.push(x).contains(y) <==> (start.contains(y) || prefix.push(x).contains(y))),
{
    assert forall|y: u64| before.contains(x) implies (before.contains(y) <==> (start.contains(y) || prefix.push(x).contains(y))) by {
        lemma_push_contains(prefix, x, y);
        assert(before.contains(y) <==> (start.contains(y) || prefix.contains(y)));
    }
    assert forall|y: u64| !before.contains(x) implies (before.push(x).contains(y) <==> (start.contains(y) || prefix.push(x).contains(y))) by {
        lemma_push_contains(prefix, x, y);
        lemma_push_contains(before, x, y);
        assert(before.contains(y) <==> (start.contains(y) || prefix.contains(y)));
    }
}

/// `r` followed by the elements of `s` that are not yet in it.
fn append_new(r: Vec<u64>, s: &Vec<u64>) -> (out: Vec<u64>)
    requires
        no_duplicates(r@),
    ensures
        no_duplicates(out@),
        forall|y: u64| out@.contains(y) <==> (r@.contains(y) || s@.contains(y)),
{
    let ghost start = r@;
    let mut out = r;
    let mut i: usize = 0;
    assert(s@.take(0) =~= Seq::<u64>::empty());
    while i < s.len()
        invariant
            i <= s.len(),
            no_duplicates(out@),
            forall|y: u64| out@.contains(y) <==> (start.contains(y) || s@.take(i as int).contains(y)),
        decreases s.len() - i,
    {
        let ghost before = out@;
        let x = s[i];
        let ghost prefix = s@.take(i as int);
        assert(s@.take(i + 1) =~= prefix.push(x));
        let present = holds(&out, x);
        if !present {
            out.push(x);
            assert forall|a: int, b: int| 0 <= a < b < out@.len() implies out@[a] != out@[b] by {
                if b == out@.len() - 1 {
                    assert(before.contains(out@[a]));
                }
            }
        }
        proof {
            lemma_union_step(before, start, prefix, x);
        }
        assert(present == before.contains(x));
        assert(out@ == if present { before } else { before.push(x) });
        assert(forall|y: u64| out@.contains(y) <==> (start.contains(y) || prefix.push(x).contains(y)));
        let ghost out_now = out@;
        i = i + 1;
        assert(s@.take(i as int) == prefix.push(x));
        assert forall|y: u64| out_now.contains(y) <==> (start.contains(y) || s@.take(i as int).contains(y)) by {
            assert(out_now.contains(y) <==> (start.contains(y) || prefix.push(x).contains(y)));
        }
    }
    assert(s@.take(s@.len() as int) =~= s@);
    out
}

/// The union of two role lists without duplicates (a set: only which roles are in it
/// is fixed, not their order).
pub fn merge_roles(a: &Vec<u64>, b: &Vec<u64>) -> (r: Vec<u64>)
    ensures
        forall|y: u64| r@.contains(y) <==> (a@.contains(y) || b@.contains(y)),
        no_duplicates(r@),
{
    let r: Vec<u64> = Vec::new();
    let r = append_new(r, a);
    let r = append_new(r, b);
    r
}

/// Whether every element of `s` is in `pool`.
pub fn all_in(s: &Vec<u64>, pool: &Vec<u64>) -> (r: bool)
    ensures
        r == (forall|i: int| 0 <= i < s@.len() ==> pool@.contains(#[trigger] s@[i])),
{
    let mut i: usize = 0;
    while i < s.len()
        invariant
            i <= s.len(),
            forall|j: int| 0 <= j < i ==> pool@.contains(#[trigger] s@[j]),
        decreases s.len() - i,
    {
        if !holds(pool, s[i]) {
            return false;
        }
        i = i + 1;
    }
    true
}

/// The roles given back when a freeze ends.
pub fn freeze_roles_back(stored: &Vec<u64>, member_role: u64) -> (r: Vec<u64>)
    ensures
        r@ == freeze_return_roles(stored@, member_role),
{
    let mut r = stored.clone();
    assert(r@ == stored@);
    if !holds(stored, member_role) {
        r.push(member_role);
    }
    r
}

/// The roles a member has after being unfrozen.
pub fn unfreeze_roles(
    current: &Vec<RoleInfo>,
    stored: &Vec<u64>,
    member_role: u64,
    guild_roles: &Vec<u64>,
) -> (r: Vec<u64>)
    ensures
        r@ == unfrozen_roles(current@, stored@, member_role, guild_roles@),
{
    let mut r = managed_role_ids(current);
    let back = freeze_roles_back(stored, member_role);
    let existing = keep_in(&back, guild_roles);
    let ghost first = r@;
    for i in 0..existing.len()
        invariant
            r@ == first + existing@.take(i as int),
    {
        r.push(existing[i]);
        assert(existing@.take(i + 1) =~= existing@.take(i as int).push(existing@[i as int]));
    }
    assert(existing@.take(existing@.len() as int) =~= existing@);
    r
}

/// The roles a member has after a scrim ban ends: the roles taken by the ban, the
/// member role and the current roles, without the ban role and without roles that no
/// longer exist in the guild (a set: only which roles are in it is fixed).
pub fn unban_roles(
    taken: &Vec<u64>,
    member_role: u64,
    current: &Vec<u64>,
    banned: u64,
    guild_roles: &Vec<u64>,
) -> (r: Vec<u64>)
    ensures
        no_duplicates(r@),
        forall|x: u64|
            r@.contains(x) <==> (taken@.contains(x) || x == member_role || current@.contains(x))
                && x != banned && guild_roles@.contains(x),
{
    let mut all = taken.clone();
    assert(all@ == taken@);
    all.push(member_role);
    let ghost with_member = all@;
    for i in 0..current.len()
        invariant
            all@ == with_member + current@.take(i as int),
    {
        all.push(current[i]);
        assert(current@.take(i + 1) =~= current@.take(i as int).push(current@[i as int]));
    }
    assert(current@.take(current@.len() as int) =~= current@);
    let mut r: Vec<u64> = Vec::new();
    assert(all@.take(0) =~= Seq::<u64>::empty());
    for i in 0..all.len()
        invariant
            no_duplicates(r@),
            forall|x: u64|
                r@.contains(x) <==> all@.take(i as int).contains(x) && x != banned
                    && guild_roles@.contains(x),
    {
        let x = all[i];
        let ghost before = r@;
        assert(all@.take(i + 1) =~= all@.take(i as int).push(x));
        if x != banned && holds(guild_roles, x) && !holds(&r, x) {
            r.push(x);
            assert forall|a: int, b: int| 0 <= a < b < r@.len() implies r@[a] != r@[b] by {
                if b == r@.len() - 1 {
                    assert(before.contains(r@[a]));
                }
            }
            assert forall|y: u64| r@.contains(y) <==> all@.take(i + 1).contains(y) && y != banned
                && guild_roles@.contains(y) by {
                lemma_push_contains(before, x, y);
                lemma_push_contains(all@.take(i as int), x, y);
            }
        } else {
            assert forall|y: u64| r@.contains(y) <==> all@.take(i + 1).contains(y) && y != banned
                && guild_roles@.contains(y) by {
                lemma_push_contains(all@.take(i as int), x, y);
            }
        }
    }
    assert(all@.take(all@.len() as int) =~= all@);
    assert forall|x: u64| all@.contains(x) <==> (taken@.contains(x) || x == member_role
        || current@.contains(x)) by {
        if all@.contains(x) {
            let k = choose|k: int| 0 <= k < all@.len() && all@[k] == x;
            if k < taken@.len() {
                assert(taken@[k] == x);
            } else if k > taken@.len() {
                assert(current@[k - taken@.len() - 1] == x);
            }
        }
        if taken@.contains(x) {
            let k = choose|k: int| 0 <= k < taken@.len() && taken@[k] == x;
            assert(all@[k] == x);
        }
        if x == member_role {
            assert(all@[taken@.len() as int] == x);
        }
        if current@.contains(x) {
            let k = choose|k: int| 0 <= k < current@.len() && current@[k] == x;
            assert(all@[taken@.len() + 1 + k] == x);
        }
    }
    r
}

/// The color roles are taken from a member who no longer boosts: `Some` of the roles
/// without the color roles when the member has one of them, `None` otherwise.
pub fn without_color_roles(roles: &Vec<u64>, colors: &Vec<u64>) -> (r: Option<Vec<u64>>)
    ensures
        (exists|i: int| 0 <= i < roles@.len() && colors@.contains(#[trigger] roles@[i])) ==> (r
            matches Some(v) && v@ == dropped_from(roles@, colors@)),
        !(exists|i: int| 0 <= i < roles@.len() && colors@.contains(#[trigger] roles@[i])) ==> r
            is None,
{
    let mut any = false;
    for i in 0..roles.len()
        invariant
            any == (exists|j: int| 0 <= j < i && colors@.contains(#[trigger] roles@[j])),
    {
        if holds(colors, roles[i]) {
            any = true;
        }
    }
    if any {
        Some(drop_from(roles, colors))
    } else {
        None
    }
}

/// The permissions a muted member must not have in any channel: send messages, send
/// messages in threads, create public and private threads, add reactions, speak.
pub const MUTED_DENY: u64 = (1u64 << 11) | (1u64 << 38) | (1u64 << 35) | (1u64 << 36) | (1u64 << 6)
    | (1u64 << 21);

/// The overwrite of the muted role that a channel must get: `None` when the present
/// one already denies all of [`MUTED_DENY`], otherwise the present allow and deny sets
/// (empty when there is none) with those permissions moved from allow to deny.
pub open spec fn muted_fix(existing: Option<(u64, u64)>) -> Option<(u64, u64)> {
    let (allow, deny) = match existing {
        Some(o) => o,
        None => (0u64, 0u64),
    };
    if existing is Some && deny & MUTED_DENY == MUTED_DENY {
        None
    } else {
        Some((allow & !MUTED_DENY, deny | MUTED_DENY))
    }
}

/// The overwrite to write for the muted role, if one is needed.
pub fn muted_overwrite_fix(existing: Option<(u64, u64)>) -> (r: Option<(u64, u64)>)
    ensures
        r == muted_fix(existing),
{
    let (allow, deny) = match existing {
        Some(o) => o,
        None => (0u64, 0u64),
    };
    if existing.is_some() && deny & MUTED_DENY == MUTED_DENY {
        None
    } else {
        Some((allow & !MUTED_DENY, deny | MUTED_DENY))
    }
}

/// A fixed overwrite needs no further fixing, allows none of the muted permissions,
/// and keeps every other permission where it was.
pub proof fn lemma_muted_fix_settles(existing: Option<(u64, u64)>)
    ensures
        muted_fix(existing) matches Some(o) ==> {
            &&& muted_fix(Some(o)) is None
            &&& o.0 & MUTED_DENY == 0
            &&& o.0 | MUTED_DENY == (match existing {
                Some(e) => e.0,
                None => 0u64,
            }) | MUTED_DENY
            &&& o.1 & !MUTED_DENY == (match existing {
                Some(e) => e.1,
                None => 0u64,
            }) & !MUTED_DENY
        },
{
    let (allow, deny) = match existing {
        Some(o) => o,
        None => (0u64, 0u64),
    };
    assert((deny | MUTED_DENY) & MUTED_DENY == MUTED_DENY) by (bit_vector);
    assert((allow & !MUTED_DENY) & MUTED_DENY == 0) by (bit_vector);
    assert((allow & !MUTED_DENY) | MUTED_DENY == allow | MUTED_DENY) by (bit_vector);
    assert((deny | MUTED_DENY) & !MUTED_DENY == deny & !MUTED_DENY) by (bit_vector);
}

/// Under a punishment role, the member keeps exactly their managed roles and the
/// punishment role, and loses every other role they had.
pub proof fn lemma_restriction_partitions(rs: Seq<RoleInfo>, punishment: u64)
    ensures
        restricted_roles(rs, punishment).contains(punishment),
        forall|i: int|
            0 <= i < rs.len() ==> (restricted_roles(rs, punishment).contains(#[trigger] rs[i].id)
                || removed_roles(rs, punishment).contains(rs[i].id)),
        forall|x: u64|
            removed_roles(rs, punishment).contains(x) ==> !restricted_roles(
                rs,
                punishment,
            ).contains(x),
{
    let keep = restricted_roles(rs, punishment);
    assert(keep[keep.len() - 1] == punishment);
    lemma_ids_outside(rs, keep);
}

proof fn lemma_ids_outside(rs: Seq<RoleInfo>, keep: Seq<u64>)
    ensures
        forall|i: int|
            0 <= i < rs.len() ==> (keep.contains(#[trigger] rs[i].id) || ids_outside(
                rs,
                keep,
            ).contains(rs[i].id)),
        forall|x: u64| ids_outside(rs, keep).contains(x) ==> !keep.contains(x),
    decreases rs.len(),
{
    if rs.len() > 0 {
        let p = rs.drop_last();
        lemma_ids_outside(p, keep);
        let o = ids_outside(rs, keep);
        let po = ids_outside(p, keep);
        assert forall|i: int| 0 <= i < rs.len() implies (keep.contains(#[trigger] rs[i].id)
            || o.contains(rs[i].id)) by {
            if i < rs.len() - 1 {
                assert(p[i] == rs[i]);
                if po.contains(rs[i].id) {
                    let k = choose|k: int| 0 <= k < po.len() && po[k] == rs[i].id;
                    assert(o[k] == rs[i].id);
                }
            } else if !keep.contains(rs[i].id) {
                assert(o[o.len() - 1] == rs[i].id);
            }
        }
        assert forall|x: u64| o.contains(x) implies !keep.contains(x) by {
            let k = choose|k: int| 0 <= k < o.len() && o[k] == x;
            if k < po.len() {
                assert(po[k] == x);
            }
        }
    }
}

/// The highest role position is the largest position among the roles: no role is
/// above it and some role has it; a member without roles counts as position 0.
pub proof fn lemma_top_position_is_highest(rs: Seq<RoleInfo>)
    ensures
        rs.len() == 0 ==> top_position(rs) == 0,
        forall|i: int| 0 <= i < rs.len() ==> (#[trigger] rs[i]).position <= top_position(rs),
        rs.len() > 0 ==> exists|i: int| 0 <= i < rs.len() && (#[trigger] rs[i]).position == top_position(rs),
    decreases rs.len(),
{
    if rs.len() > 1 {
        let p = rs.drop_last();
        lemma_top_position_is_highest(p);
        assert forall|i: int| 0 <= i < rs.len() implies (#[trigger] rs[i]).position <= top_position(rs) by {
            if i < p.len() {
                assert(rs[i] == p[i]);
            }
        }
        if top_position(rs) == top_position(p) {
            let j = choose|j: int| 0 <= j < p.len() && (#[trigger] p[j]).position == top_position(p);
            assert(rs[j] == p[j]);
        } else {
            assert(rs[rs.len() - 1].position == top_position(rs));
        }
    } else if rs.len() == 1 {
        assert(rs[0].position == top_position(rs));
    }
}

/// An executor may freeze a target exactly when one of the executor's roles is above
/// every role of the target (and above position 0 when the target has none), or when
/// the executor has no roles and every role of the target is below position 0.
pub proof fn lemma_freeze_needs_a_higher_role(executor: Seq<RoleInfo>, target: Seq<RoleInfo>)
    ensures
        (top_position(executor) > top_position(target)) <==> ((exists|i: int|
            0 <= i < executor.len() && (target.len() == 0 ==> executor[i].position > 0) && forall|j: int|
                0 <= j < target.len() ==> #[trigger] target[j].position < (#[trigger] executor[i]).position)
            || (executor.len() == 0 && target.len() > 0 && forall|j: int|
            0 <= j < target.len() ==> (#[trigger] target[j]).position < 0)),
{
    lemma_top_position_is_highest(executor);
    lemma_top_position_is_highest(target);
    if top_position(executor) > top_position(target) {
        if executor.len() > 0 {
            let i = choose|i: int| 0 <= i < executor.len() && (#[trigger] executor[i]).position == top_position(executor);
            assert forall|j: int| 0 <= j < target.len() implies #[trigger] target[j].position < executor[i].position by {
                assert(target[j].position <= top_position(target));
            }
        } else {
            assert forall|j: int| 0 <= j < target.len() implies (#[trigger] target[j]).position < 0 by {
                assert(target[j].position <= top_position(target));
            }
        }
    }
    if exists|i: int|
        0 <= i < executor.len() && (target.len() == 0 ==> executor[i].position > 0) && forall|j: int|
            0 <= j < target.len() ==> #[trigger] target[j].position < (#[trigger] executor[i]).position {
        let i = choose|i: int|
            0 <= i < executor.len() && (target.len() == 0 ==> executor[i].position > 0) && forall|j: int|
                0 <= j < target.len() ==> #[trigger] target[j].position < (#[trigger] executor[i]).position;
        assert(executor[i].position <= top_position(executor));
        if target.len() > 0 {
            let j = choose|j: int| 0 <= j < target.len() && (#[trigger] target[j]).position == top_position(target);
            assert(target[j].position < executor[i].position);
        }
    }
    if executor.len() == 0 && target.len() > 0 && forall|j: int|
        0 <= j < target.len() ==> (#[trigger] target[j]).position < 0 {
        let j = choose|j: int| 0 <= j < target.len() && (#[trigger] target[j]).position == top_position(target);
        assert(target[j].position < 0);
    }
}

/// The key of the highest role is the largest key among the roles in the role order:
/// it is the key of one of them and no role's key is above it; there is none exactly
/// when there are no roles.
pub proof fn lemma_top_key_is_highest(rs: Seq<RoleInfo>)
    ensures
        top_key(rs) is None <==> rs.len() == 0,
        top_key(rs) matches Some(k) ==> (exists|i: int|
            0 <= i < rs.len() && k == ((#[trigger] rs[i]).position, rs[i].id)) && forall|j: int|
            0 <= j < rs.len() ==> !key_lt(k, ((#[trigger] rs[j]).position, rs[j].id)),
    decreases rs.len(),
{
    if rs.len() > 0 {
        let p = rs.drop_last();
        lemma_top_key_is_highest(p);
        let k = top_key(rs)->0;
        let last = rs.len() - 1;
        assert forall|j: int| 0 <= j < rs.len() implies !key_lt(k, ((#[trigger] rs[j]).position, rs[j].id)) by {
            if j < p.len() {
                assert(rs[j] == p[j]);
            }
        }
        match top_key(p) {
            None => {
                assert(k == (rs[last].position, rs[last].id));
            },
            Some(t) => {
                if k == t {
                    let i = choose|i: int| 0 <= i < p.len() && t == ((#[trigger] p[i]).position, p[i].id);
                    assert(rs[i] == p[i]);
                } else {
                    assert(k == (rs[last].position, rs[last].id));
                }
            },
        }
    }
}

/// An executor may moderate a target exactly when the target is no bot and one of the
/// executor's roles is above every role of the target in the role order (position,
/// then id).
pub proof fn lemma_moderation_needs_a_higher_role(target: Seq<RoleInfo>, executor: Seq<RoleInfo>, target_is_bot: bool)
    ensures
        may_moderate(target, executor, target_is_bot) <==> (!target_is_bot && exists|i: int|
            0 <= i < executor.len() && forall|j: int|
                0 <= j < target.len() ==> (#[trigger] target[j]).position < (#[trigger] executor[i]).position
                    || (target[j].position == executor[i].position && target[j].id < executor[i].id)),
{
    lemma_top_key_is_highest(target);
    lemma_top_key_is_highest(executor);
    if may_moderate(target, executor, target_is_bot) {
        let e = top_key(executor)->0;
        let i = choose|i: int| 0 <= i < executor.len() && e == ((#[trigger] executor[i]).position, executor[i].id);
        assert forall|j: int| 0 <= j < target.len() implies (#[trigger] target[j]).position < (
            #[trigger] executor[i]).position || (target[j].position == executor[i].position && target[j].id
            < executor[i].id) by {
            let t = top_key(target)->0;
            assert(!key_lt(t, (target[j].position, target[j].id)));
        }
    }
    if !target_is_bot && exists|i: int|
        0 <= i < executor.len() && forall|j: int|
            0 <= j < target.len() ==> (#[trigger] target[j]).position < (#[trigger] executor[i]).position
                || (target[j].position == executor[i].position && target[j].id < executor[i].id) {
        let i = choose|i: int|
            0 <= i < executor.len() && forall|j: int|
                0 <= j < target.len() ==> (#[trigger] target[j]).position < (#[trigger] executor[i]).position
                    || (target[j].position == executor[i].position && target[j].id < executor[i].id);
        assert(!key_lt(top_key(executor)->0, (executor[i].position, executor[i].id)));
        if target.len() > 0 {
            let t = top_key(target)->0;
            let j = choose|j: int| 0 <= j < target.len() && t == ((#[trigger] target[j]).position, target[j].id);
            assert(key_lt(t, (executor[i].position, executor[i].id)));
        }
    }
}

/// Moderation goes one way: when the executor may moderate the target, the target may
/// not moderate the executor; and nobody may moderate someone with the same roles.
pub proof fn lemma_moderation_one_way(a: Seq<RoleInfo>, b: Seq<RoleInfo>, a_bot: bool, b_bot: bool)
    ensures
        may_moderate(a, b, a_bot) ==> !may_moderate(b, a, b_bot),
        !may_moderate(a, a, a_bot),
{
}

/// Freezing goes one way: when the executor may freeze the target, the target may not
/// freeze the executor; and nobody may freeze someone with the same top position.
pub proof fn lemma_freeze_one_way(a: Seq<RoleInfo>, b: Seq<RoleInfo>)
    ensures
        top_position(a) > top_position(b) ==> !(top_position(b) > top_position(a)),
        !(top_position(a) > top_position(a)),
{
}

proof fn lemma_managed_ids_are_ids(rs: Seq<RoleInfo>)
    ensures
        forall|x: u64| managed_ids(rs).contains(x) ==> exists|i: int| 0 <= i < rs.len() && (#[trigger] rs[i]).id == x,
    decreases rs.len(),
{
    if rs.len() > 0 {
        let p = rs.drop_last();
        lemma_managed_ids_are_ids(p);
        assert forall|x: u64| managed_ids(rs).contains(x) implies exists|i: int|
            0 <= i < rs.len() && (#[trigger] rs[i]).id == x by {
            let m = managed_ids(rs);
            let k = choose|k: int| 0 <= k < m.len() && m[k] == x;
            if k < managed_ids(p).len() {
                assert(managed_ids(p)[k] == x);
                assert(managed_ids(p).contains(x));
                let i = choose|i: int| 0 <= i < p.len() && (#[trigger] p[i]).id == x;
                assert(rs[i] == p[i]);
            } else {
                assert(rs[rs.len() - 1].id == x);
            }
        }
    }
}

proof fn lemma_ids_outside_are_ids(rs: Seq<RoleInfo>, keep: Seq<u64>)
    ensures
        forall|x: u64| ids_outside(rs, keep).contains(x) ==> exists|i: int| 0 <= i < rs.len() && (#[trigger] rs[i]).id == x,
    decreases rs.len(),
{
    if rs.len() > 0 {
        let p = rs.drop_last();
        lemma_ids_outside_are_ids(p, keep);
        assert forall|x: u64| ids_outside(rs, keep).contains(x) implies exists|i: int|
            0 <= i < rs.len() && (#[trigger] rs[i]).id == x by {
            let m = ids_outside(rs, keep);
            let k = choose|k: int| 0 <= k < m.len() && m[k] == x;
            if k < ids_outside(p, keep).len() {
                assert(ids_outside(p, keep)[k] == x);
                assert(ids_outside(p, keep).contains(x));
                let i = choose|i: int| 0 <= i < p.len() && (#[trigger] p[i]).id == x;
                assert(rs[i] == p[i]);
            } else {
                assert(rs[rs.len() - 1].id == x);
            }
        }
    }
}

/// The roles a member held before a punishment role are exactly those kept and those
/// taken, apart from the punishment role itself.
pub proof fn lemma_restriction_covers(rs: Seq<RoleInfo>, punishment: u64)
    ensures
        forall|x: u64|
            (restricted_roles(rs, punishment).contains(x) || removed_roles(rs, punishment).contains(x))
                <==> ((exists|i: int| 0 <= i < rs.len() && (#[trigger] rs[i]).id == x) || x == punishment),
{
    lemma_restriction_partitions(rs, punishment);
    lemma_managed_ids_are_ids(rs);
    lemma_ids_outside_are_ids(rs, restricted_roles(rs, punishment));
    let keep = restricted_roles(rs, punishment);
    assert forall|x: u64|
        (keep.contains(x) || removed_roles(rs, punishment).contains(x)) <==> ((exists|i: int|
            0 <= i < rs.len() && (#[trigger] rs[i]).id == x) || x == punishment) by {
        if keep.contains(x) {
            let k = choose|k: int| 0 <= k < keep.len() && keep[k] == x;
            if k < managed_ids(rs).len() {
                assert(managed_ids(rs)[k] == x);
                assert(managed_ids(rs).contains(x));
            }
        }
        if exists|i: int| 0 <= i < rs.len() && (#[trigger] rs[i]).id == x {
            let i = choose|i: int| 0 <= i < rs.len() && (#[trigger] rs[i]).id == x;
            assert(keep.contains(rs[i].id) || removed_roles(rs, punishment).contains(rs[i].id));
        }
    }
}

} // verus!
