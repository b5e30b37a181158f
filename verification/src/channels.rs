//! Voice channels that grow and shrink with use: a family of numbered channels
//! (`Queue #1`, `Queue #2`, ...) gets more members when all are in use and loses
//! unused ones when there are too many.

use vstd::prelude::*;

use crate::matching::{captures_all, regex_captures};
use crate::text::{
    chars_of, chars_start_with, decimal, parse_usize, parse_usize_chars, push_decimal, push_str,
    starts_with,
};

verus! {

/// A channel name is a base name (up to an optional ` #`) followed by its number.
pub const NAME_PATTERN: &'static str = r"(.* #?)(\d+)";

/// What the logic reads of a guild channel.
pub struct VoiceChannel {
    pub id: u64,
    pub name: String,
    /// The channel is a voice channel.
    pub is_voice: bool,
    pub parent_id: Option<u64>,
    pub position: i64,
    /// How many members are connected to it.
    pub members: usize,
}

/// The base name and number of a channel name: from the first match of
/// [`NAME_PATTERN`], or the whole name and 1 when there is none. `None` where the
/// number does not fit a `usize` (reading the name aborts there).
pub open spec fn divided_name(name: Seq<char>) -> Option<(Seq<char>, usize)> {
    match regex_captures(NAME_PATTERN@, name) {
        None => None,
        Some(caps) => if caps.len() == 0 {
            Some((name, 1usize))
        } else {
            let c = caps[0];
            if c.len() >= 3 && c[1] is Some && c[2] is Some && parse_usize(c[2]->0) is Some {
                Some((c[1]->0, parse_usize(c[2]->0)->0))
            } else {
                None
            }
        },
    }
}

/// Splits a channel name into its base name and number.
pub fn divide_channel_name(name: &str) -> (r: Option<(String, usize)>)
    ensures
        match divided_name(name@) {
            Some((b, n)) => r matches Some(p) && p.0@ == b && p.1 == n,
            None => r is None,
        },
{
    match captures_all(NAME_PATTERN, name) {
        None => None,
        Some(caps) => {
            if caps.len() == 0 {
                return Some((name.to_owned(), 1));
            }
            let c = &caps[0];
            assert(caps.deep_view()[0] == c.deep_view());
            if c.len() < 3 {
                return None;
            }
            match (&c[1], &c[2]) {
                (Some(base), Some(num)) => {
                    let digits = chars_of(num.as_str());
                    match parse_usize_chars(digits.as_slice()) {
                        Some(n) => Some((base.clone(), n)),
                        None => None,
                    }
                },
                _ => None,
            }
        },
    }
}

/// The channels of the family of a channel named with base `base` under `parent`: the
/// voice channels under the same parent whose names start with the base, in the
/// given order.
pub open spec fn family(all: Seq<VoiceChannel>, base: Seq<char>, parent: Option<u64>) -> Seq<
    usize,
>
    decreases all.len(),
{
    if all.len() == 0 {
        seq![]
    } else {
        let c = all.last();
        let rest = family(all.drop_last(), base, parent);
        if c.is_voice && c.parent_id == parent && starts_with(c.name@, base) {
            rest.push((all.len() - 1) as usize)
        } else {
            rest
        }
    }
}

/// `a` comes before `b` when its key is smaller, or the keys are equal and it comes
/// first.
pub open spec fn key_before(ka: usize, a: usize, kb: usize, b: usize) -> bool {
    ka < kb || (ka == kb && a < b)
}

/// The numbers of all family members can be read from their names.
pub open spec fn numbers_readable(all: Seq<VoiceChannel>, f: Seq<usize>) -> bool {
    forall|i: int| 0 <= i < f.len() ==> (#[trigger] divided_name(all[f[i] as int].name@)) is Some
}

/// The number in the name of channel `c`.
pub open spec fn number_of(all: Seq<VoiceChannel>, c: usize) -> usize {
    (divided_name(all[c as int].name@)->0).1
}

/// Indexes of the family members.
pub fn family_indices(all: &Vec<VoiceChannel>, base: &str, parent: Option<u64>) -> (r: Vec<usize>)
    ensures
        r@ == family(all@, base@, parent),
{
    let base_chars = chars_of(base);
    let mut r: Vec<usize> = Vec::new();
    for i in 0..all.len()
        invariant
            base_chars@ == base@,
            r@ == family(all@.take(i as int), base@, parent),
    {
        assert(all@.take(i + 1).drop_last() =~= all@.take(i as int));
        let c = &all[i];
        let name = chars_of(c.name.as_str());
        if c.is_voice && c.parent_id == parent && chars_start_with(
            name.as_slice(),
            base_chars.as_slice(),
        ) {
            r.push(i);
        }
    }
    assert(all@.take(all@.len() as int) =~= all@);
    r
}

proof fn lemma_family_increasing(all: Seq<VoiceChannel>, base: Seq<char>, parent: Option<u64>)
    requires
        all.len() <= usize::MAX,
    ensures
        forall|i: int, j: int|
            0 <= i < j < family(all, base, parent).len() ==> family(all, base, parent)[i]
                < family(all, base, parent)[j],
        forall|i: int|
            0 <= i < family(all, base, parent).len() ==> family(all, base, parent)[i]
                < all.len(),
    decreases all.len(),
{
    if all.len() > 0 {
        let rest = family(all.drop_last(), base, parent);
        lemma_family_increasing(all.drop_last(), base, parent);
        let f = family(all, base, parent);
        let c = all.last();
        if c.is_voice && c.parent_id == parent && starts_with(c.name@, base) {
            let last = (all.len() - 1) as usize;
            assert(f == rest.push(last));
            assert forall|i: int| 0 <= i < f.len() implies f[i] < all.len() by {
                if i < rest.len() {
                    assert(f[i] == rest[i]);
                } else {
                    assert(f[i] == last);
                }
            }
            assert forall|i: int, j: int| 0 <= i < j < f.len() implies f[i] < f[j] by {
                assert(f[i] == rest[i]);
                if j < rest.len() {
                    assert(f[j] == rest[j]);
                    assert(rest[i] < rest[j]);
                } else {
                    assert(f[j] == last);
                    assert(rest[i] < all.drop_last().len());
                }
            }
        } else {
            assert(f == rest);
        }
    }
}

/// Orders the positions `0..keys.len()` by key, keeping equal keys in order (a stable
/// sort): position `p` comes before `q` exactly when `key_before(keys[p], p, keys[q], q)`.
pub fn stable_order(keys: &Vec<usize>) -> (r: Vec<usize>)
    ensures
        r@.len() == keys@.len(),
        forall|x: usize| r@.contains(x) <==> x < keys@.len(),
        forall|i: int, j: int|
            0 <= i < j < r@.len() ==> key_before(keys@[r@[i] as int], r@[i], keys@[r@[j] as int], r@[j]),
{
    let mut r: Vec<usize> = Vec::new();
    let mut p: usize = 0;
    while p < keys.len()
        invariant
            p <= keys.len(),
            r@.len() == p,
            forall|x: usize| r@.contains(x) <==> x < p,
            forall|m: int| 0 <= m < r@.len() ==> r@[m] < p,
            forall|i: int, j: int|
                0 <= i < j < r@.len() ==> key_before(
                    keys@[r@[i] as int],
                    r@[i],
                    keys@[r@[j] as int],
                    r@[j],
                ),
        decreases keys.len() - p,
    {
        let kp = keys[p];
        let mut k: usize = 0;
        while k < r.len() && !(kp < keys[r[k]])
            invariant
                k <= r@.len(),
                r@.len() == p,
                p < keys@.len(),
                kp == keys@[p as int],
                forall|x: usize| r@.contains(x) <==> x < p,
                forall|m: int| 0 <= m < r@.len() ==> r@[m] < p,
                forall|i: int, j: int|
                    0 <= i < j < r@.len() ==> key_before(
                        keys@[r@[i] as int],
                        r@[i],
                        keys@[r@[j] as int],
                        r@[j],
                    ),
                forall|m: int| 0 <= m < k ==> keys@[r@[m] as int] <= kp,
            decreases r@.len() - k,
        {
            assert(r@.contains(r@[k as int]));
            k = k + 1;
        }
        let ghost before = r@;
        proof {
            assert forall|m: int| k <= m < before.len() implies kp < keys@[before[m] as int] by {
                if k < m {
                    assert(key_before(
                        keys@[before[k as int] as int],
                        before[k as int],
                        keys@[before[m] as int],
                        before[m],
                    ));
                }
            }
            assert forall|m: int| 0 <= m < before.len() implies before[m] < p by {
                assert(before.contains(before[m]));
            }
        }
        r.insert(k, p);
        proof {
            let after = r@;
            assert(after == before.insert(k as int, p));
            assert forall|i: int, j: int| 0 <= i < j < after.len() implies key_before(
                keys@[after[i] as int],
                after[i],
                keys@[after[j] as int],
                after[j],
            ) by {
                if j < k {
                    assert(after[i] == before[i] && after[j] == before[j]);
                } else if j == k {
                    assert(after[i] == before[i]);
                } else if i == k {
                    assert(after[j] == before[j - 1]);
                } else if i < k {
                    assert(after[i] == before[i] && after[j] == before[j - 1]);
                } else {
                    assert(after[i] == before[i - 1] && after[j] == before[j - 1]);
                }
            }
            assert forall|m: int| 0 <= m < after.len() implies after[m] < p + 1 by {
                if m < k {
                    assert(after[m] == before[m]);
                } else if m > k {
                    assert(after[m] == before[m - 1]);
                }
            }
            assert forall|x: usize| after.contains(x) <==> x < p + 1 by {
                if x == p {
                    assert(after[k as int] == p);
                } else {
                    if before.contains(x) {
                        let m = choose|m: int| 0 <= m < before.len() && before[m] == x;
                        if m < k {
                            assert(after[m] == x);
                        } else {
                            assert(after[m + 1] == x);
                        }
                    }
                    if after.contains(x) {
                        let m = choose|m: int| 0 <= m < after.len() && after[m] == x;
                        if m < k {
                            assert(before[m] == x);
                        } else if m > k {
                            assert(before[m - 1] == x);
                        }
                    }
                }
            }
        }
        p = p + 1;
    }
    r
}

/// The family sorted by number, channels with equal numbers in guild order.
pub open spec fn sorted_family_of(
    all: Seq<VoiceChannel>,
    f: Seq<usize>,
    r: Seq<usize>,
) -> bool {
    &&& r.len() == f.len()
    &&& forall|x: usize| r.contains(x) <==> f.contains(x)
    &&& forall|i: int, j: int|
        0 <= i < j < r.len() ==> key_before(number_of(all, r[i]), r[i], number_of(all, r[j]), r[j])
}

/// The contents of an optional list of channel indexes.
pub open spec fn opt_view(r: Option<Vec<usize>>) -> Option<Seq<usize>> {
    match r {
        Some(v) => Some(v@),
        None => None,
    }
}

/// What [`sorted_family`] gives for the family of channel `patient`.
pub open spec fn sorted_family_result(all: Seq<VoiceChannel>, patient: int, r: Option<Seq<usize>>) -> bool {
    match divided_name(all[patient].name@) {
        None => r is None,
        Some((base, _)) => {
            let f = family(all, base, all[patient].parent_id);
            if f.len() >= 2 && !numbers_readable(all, f) {
                r is None
            } else {
                r matches Some(v) && (f.len() < 2 ==> v == f) && (numbers_readable(all, f)
                    ==> sorted_family_of(all, f, v))
            }
        },
    }
}

/// The family members of channel `patient` sorted by the numbers in their names. `None`
/// where a name that has to be read has a number beyond `usize` (the patient's name
/// always, the members' names when there are two or more to sort).
pub fn sorted_family(all: &Vec<VoiceChannel>, patient: usize) -> (r: Option<Vec<usize>>)
    requires
        patient < all@.len(),
    ensures
        sorted_family_result(all@, patient as int, opt_view(r)),
{
    let p = &all[patient];
    let divided = divide_channel_name(p.name.as_str());
    let (base, _) = match divided {
        None => return None,
        Some(d) => d,
    };
    let f = family_indices(all, base.as_str(), p.parent_id);
    let count = all.len();
    proof {
        assert(all@.len() == count);
        lemma_family_increasing(all@, base@, p.parent_id);
    }
    if f.len() < 2 {
        let r = Some(f);
        assert(opt_view(r) == Some(f@));
        return r;
    }
    let keys = match family_numbers(all, &f) {
        None => return None,
        Some(k) => k,
    };
    let order = stable_order(&keys);
    let mut r: Vec<usize> = Vec::new();
    for i in 0..order.len()
        invariant
            order@.len() == f@.len(),
            keys@.len() == f@.len(),
            forall|x: usize| order@.contains(x) <==> x < keys@.len(),
            r@ == order@.take(i as int).map_values(|q: usize| f@[q as int]),
    {
        assert(order@.contains(order@[i as int]));
        r.push(f[order[i]]);
        assert(r@ =~= order@.take(i + 1).map_values(|q: usize| f@[q as int]));
    }
    assert(order@.take(order@.len() as int) =~= order@);
    proof {
        let v = r@;
        assert(v == order@.map_values(|q: usize| f@[q as int]));
        assert forall|x: usize| v.contains(x) <==> f@.contains(x) by {
            if v.contains(x) {
                let m = choose|m: int| 0 <= m < v.len() && v[m] == x;
                assert(order@.contains(order@[m]));
                assert(f@[order@[m] as int] == x);
            }
            if f@.contains(x) {
                let q = choose|q: int| 0 <= q < f@.len() && f@[q] == x;
                assert(order@.contains(q as usize));
                let m = choose|m: int| 0 <= m < order@.len() && order@[m] == q as usize;
                assert(v[m] == x);
            }
        }
        assert forall|i: int, j: int| 0 <= i < j < v.len() implies key_before(
            number_of(all@, v[i]),
            v[i],
            number_of(all@, v[j]),
            v[j],
        ) by {
            let a = order@[i] as int;
            let b = order@[j] as int;
            assert(order@.contains(order@[i]));
            assert(order@.contains(order@[j]));
            assert(key_before(keys@[a], a as usize, keys@[b], b as usize));
            assert(v[i] == f@[a] && v[j] == f@[b]);
            if a < b {
                assert(f@[a] < f@[b]);
            } else if b < a {
                assert(f@[b] < f@[a]);
            }
        }
    }
    let res = Some(r);
    assert(opt_view(res) == Some(r@));
    res
}

/// The channels to delete from a sorted family: of the unused ones (no members), all
/// beyond the first `min`, starting from the last.
pub open spec fn excess_channels(all: Seq<VoiceChannel>, sorted: Seq<usize>, min: usize) -> Seq<
    usize,
> {
    let unused = sorted.filter(|c: usize| all[c as int].members == 0);
    if unused.len() > min {
        Seq::new((unused.len() - min) as nat, |k: int| unused[unused.len() - 1 - k])
    } else {
        seq![]
    }
}

/// Cleaning up a family deletes only unused channels of the family, the highest
/// numbered first, and leaves `min` of its unused channels (all of them when there are
/// no more than that).
pub proof fn lemma_cleanup_keeps_min(all: Seq<VoiceChannel>, sorted: Seq<usize>, min: usize)
    ensures
        ({
            let unused = sorted.filter(|c: usize| all[c as int].members == 0);
            let gone = excess_channels(all, sorted, min);
            &&& forall|k: int|
                0 <= k < gone.len() ==> sorted.contains(#[trigger] gone[k]) && all[gone[k] as int].members
                    == 0
            &&& forall|k: int| 0 <= k < gone.len() ==> #[trigger] gone[k] == unused[unused.len() - 1 - k]
            &&& unused.len() - gone.len() == if unused.len() > min {
                min as int
            } else {
                unused.len() as int
            }
        }),
{
    let pred = |c: usize| all[c as int].members == 0;
    let unused = sorted.filter(pred);
    let gone = excess_channels(all, sorted, min);
    assert forall|k: int| 0 <= k < gone.len() implies sorted.contains(#[trigger] gone[k])
        && all[gone[k] as int].members == 0 by {
        let j = unused.len() - 1 - k;
        sorted.lemma_filter_pred(pred, j);
        assert(unused.contains(unused[j]));
        sorted.lemma_filter_contains_rev(pred, unused[j]);
    }
}

/// Cleaning up a group deletes only unused channels of the group numbered above 2:
/// the first two channels always stay.
pub proof fn lemma_group_cleanup_spares_first(all: Seq<VoiceChannel>, f: Seq<usize>)
    ensures
        forall|k: int|
            0 <= k < group_excess(all, f).len() ==> f.contains(#[trigger] group_excess(all, f)[k])
                && all[group_excess(all, f)[k] as int].members == 0 && number_of(
                all,
                group_excess(all, f)[k],
            ) > 2,
{
    let pred = |c: usize| all[c as int].members == 0 && number_of(all, c) > 2;
    assert forall|k: int| 0 <= k < group_excess(all, f).len() implies f.contains(
        #[trigger] group_excess(all, f)[k],
    ) && all[group_excess(all, f)[k] as int].members == 0 && number_of(all, group_excess(all, f)[k])
        > 2 by {
        assert(group_excess(all, f) == f.filter(pred));
        f.lemma_filter_pred(pred, k);
        assert(f.filter(pred).contains(f.filter(pred)[k]));
        f.lemma_filter_contains_rev(pred, f.filter(pred)[k]);
    }
}

/// The unused channels of a sorted family that are to be deleted, in deletion order.
pub fn excess_to_remove(all: &Vec<VoiceChannel>, sorted: &Vec<usize>, min: usize) -> (r: Vec<usize>)
    requires
        forall|i: int| 0 <= i < sorted@.len() ==> sorted@[i] < all@.len(),
    ensures
        r@ == excess_channels(all@, sorted@, min),
{
    let ghost pred = |c: usize| all@[c as int].members == 0;
    let mut unused: Vec<usize> = Vec::new();
    for i in 0..sorted.len()
        invariant
            forall|m: int| 0 <= m < sorted@.len() ==> sorted@[m] < all@.len(),
            pred == (|c: usize| all@[c as int].members == 0),
            unused@ == sorted@.take(i as int).filter(pred),
    {
        reveal_with_fuel(Seq::filter, 1);
        assert(sorted@.take(i + 1).drop_last() =~= sorted@.take(i as int));
        if all[sorted[i]].members == 0 {
            unused.push(sorted[i]);
        }
    }
    assert(sorted@.take(sorted@.len() as int) =~= sorted@);
    let mut r: Vec<usize> = Vec::new();
    if unused.len() > min {
        let n = unused.len() - min;
        for k in 0..n
            invariant
                n == unused@.len() - min,
                unused@.len() > min,
                r@ =~= Seq::new(k as nat, |j: int| unused@[unused@.len() - 1 - j]),
        {
            r.push(unused[unused.len() - 1 - k]);
        }
    }
    r
}

/// A family needs more channels when all of its channels are in use and it has fewer
/// than `max`.
pub open spec fn needs_more_channels(all: Seq<VoiceChannel>, f: Seq<usize>, max: usize) -> bool {
    (forall|i: int| 0 <= i < f.len() ==> all[#[trigger] f[i] as int].members > 0) && f.len() < max
}

/// Whether all channels of `f` are in use.
pub fn all_in_use(all: &Vec<VoiceChannel>, f: &Vec<usize>) -> (r: bool)
    requires
        forall|i: int| 0 <= i < f@.len() ==> f@[i] < all@.len(),
    ensures
        r == (forall|i: int| 0 <= i < f@.len() ==> all@[#[trigger] f@[i] as int].members > 0),
{
    let mut i: usize = 0;
    while i < f.len()
        invariant
            i <= f@.len(),
            forall|m: int| 0 <= m < f@.len() ==> f@[m] < all@.len(),
            forall|m: int| 0 <= m < i ==> all@[#[trigger] f@[m] as int].members > 0,
        decreases f@.len() - i,
    {
        if all[f[i]].members == 0 {
            return false;
        }
        i = i + 1;
    }
    true
}

/// Whether the family needs more channels.
pub fn needs_more(all: &Vec<VoiceChannel>, f: &Vec<usize>, max: usize) -> (r: bool)
    requires
        forall|i: int| 0 <= i < f@.len() ==> f@[i] < all@.len(),
    ensures
        r == needs_more_channels(all@, f@, max),
{
    all_in_use(all, f) && f.len() < max
}

/// The largest of some numbers, or `default` for none.
pub open spec fn max_or(s: Seq<int>, default: int) -> int
    decreases s.len(),
{
    if s.len() == 0 {
        default
    } else if s.len() == 1 {
        s[0]
    } else {
        let m = max_or(s.drop_last(), default);
        if s.last() > m {
            s.last()
        } else {
            m
        }
    }
}

/// The numbers in the names of the family members.
pub open spec fn numbers(all: Seq<VoiceChannel>, f: Seq<usize>) -> Seq<int> {
    f.map_values(|c: usize| number_of(all, c) as int)
}

/// The position of a channel as a `usize`, or 0 when it does not fit.
pub open spec fn position_usize(p: i64) -> int {
    if p < 0 || p > usize::MAX {
        0
    } else {
        p as int
    }
}

/// The position of a channel as a `u32`, or 0 when it does not fit.
pub open spec fn position_u32(p: i64) -> int {
    if p < 0 || p > u32::MAX {
        0
    } else {
        p as int
    }
}

/// The numbers of the given family members, read from their names.
pub fn family_numbers(all: &Vec<VoiceChannel>, f: &Vec<usize>) -> (r: Option<Vec<usize>>)
    requires
        forall|i: int| 0 <= i < f@.len() ==> f@[i] < all@.len(),
    ensures
        numbers_readable(all@, f@) ==> (r matches Some(v) && v@.len() == f@.len() && forall|m: int|
            0 <= m < f@.len() ==> v@[m] == number_of(all@, f@[m])),
        !numbers_readable(all@, f@) ==> r is None,
{
    let mut keys: Vec<usize> = Vec::new();
    let mut i: usize = 0;
    while i < f.len()
        invariant
            i <= f@.len(),
            keys@.len() == i,
            forall|m: int| 0 <= m < f@.len() ==> f@[m] < all@.len(),
            forall|m: int|
                #![trigger f@[m]]
                0 <= m < i ==> divided_name(all@[f@[m] as int].name@) is Some && keys@[m]
                    == number_of(all@, f@[m]),
        decreases f@.len() - i,
    {
        let ghost name = all@[f@[i as int] as int].name@;
        let d = divide_channel_name(all[f[i]].name.as_str());
        if d.is_none() {
            assert(divided_name(name) is None);
            assert(!numbers_readable(all@, f@));
            return None;
        }
        let pair = d.unwrap();
        assert(divided_name(name) is Some);
        assert(pair.1 == number_of(all@, f@[i as int]));
        let ghost old_keys = keys@;
        keys.push(pair.1);
        proof {
            assert forall|m: int| 0 <= m < i + 1 implies divided_name(
                all@[f@[m] as int].name@,
            ) is Some && keys@[m] == number_of(all@, f@[m]) by {
                if m < i {
                    assert(keys@[m] == old_keys[m]);
                }
            }
        }
        i = i + 1;
    }
    proof {
        assert forall|m: int| 0 <= m < f@.len() implies #[trigger] divided_name(
            all@[f@[m] as int].name@,
        ) is Some by {
        }
    }
    Some(keys)
}

/// The largest number, or `default` for none.
pub fn max_number(nums: &Vec<usize>, default: usize) -> (r: usize)
    ensures
        r as int == max_or(nums@.map_values(|n: usize| n as int), default as int),
{
    if nums.len() == 0 {
        return default;
    }
    let mut best = nums[0];
    let mut i: usize = 1;
    assert(nums@.take(1).map_values(|n: usize| n as int) =~= seq![nums@[0] as int]);
    while i < nums.len()
        invariant
            1 <= i <= nums@.len(),
            best as int == max_or(nums@.take(i as int).map_values(|n: usize| n as int), default as int),
        decreases nums@.len() - i,
    {
        assert(nums@.take(i + 1).map_values(|n: usize| n as int).drop_last() =~= nums@.take(
            i as int,
        ).map_values(|n: usize| n as int));
        if nums[i] > best {
            best = nums[i];
        }
        i = i + 1;
    }
    assert(nums@.take(nums@.len() as int) =~= nums@);
    best
}

/// The positions of the family members, negative ones as 0.
pub open spec fn positions_usize(all: Seq<VoiceChannel>, f: Seq<usize>) -> Seq<int> {
    f.map_values(|c: usize| position_usize(all[c as int].position))
}

/// The positions of the family members, those beyond `u32` as 0.
pub open spec fn positions_u32(all: Seq<VoiceChannel>, f: Seq<usize>) -> Seq<int> {
    f.map_values(|c: usize| position_u32(all[c as int].position))
}

/// The highest position in the family, positions that do not fit the target type as
/// 0, and 0 for none.
pub fn highest_position(all: &Vec<VoiceChannel>, f: &Vec<usize>, as_u32: bool) -> (r: u64)
    requires
        forall|i: int| 0 <= i < f@.len() ==> f@[i] < all@.len(),
    ensures
        !as_u32 ==> r as int == max_or(positions_usize(all@, f@), 0),
        as_u32 ==> r as int == max_or(positions_u32(all@, f@), 0),
{
    let mut ps: Vec<usize> = Vec::new();
    for i in 0..f.len()
        invariant
            ps@.len() == i,
            forall|m: int| 0 <= m < f@.len() ==> f@[m] < all@.len(),
            forall|m: int|
                0 <= m < i ==> ps@[m] as int == if as_u32 {
                    position_u32(all@[f@[m] as int].position)
                } else {
                    position_usize(all@[f@[m] as int].position)
                },
    {
        let p = all[f[i]].position;
        let v: usize = if p < 0 || (as_u32 && p > 4294967295) || p as u64 > usize::MAX as u64 {
            0
        } else {
            p as usize
        };
        ps.push(v);
    }
    let m = max_number(&ps, 0);
    proof {
        if as_u32 {
            assert(ps@.map_values(|n: usize| n as int) =~= positions_u32(all@, f@));
        } else {
            assert(ps@.map_values(|n: usize| n as int) =~= positions_usize(all@, f@));
        }
    }
    m as u64
}

/// The index of the channel with id `id`.
pub open spec fn index_of_id(all: Seq<VoiceChannel>, id: u64) -> Option<int>
    decreases all.len(),
{
    if all.len() == 0 {
        None
    } else {
        match index_of_id(all.drop_last(), id) {
            Some(i) => Some(i),
            None => if all.last().id == id {
                Some(all.len() - 1)
            } else {
                None
            },
        }
    }
}

proof fn lemma_index_of_id_range(all: Seq<VoiceChannel>, id: u64)
    ensures
        index_of_id(all, id) matches Some(i) ==> 0 <= i < all.len(),
    decreases all.len(),
{
    if all.len() > 0 {
        lemma_index_of_id_range(all.drop_last(), id);
    }
}

proof fn lemma_index_of_id_prefix(all: Seq<VoiceChannel>, id: u64, k: int)
    requires
        0 < k <= all.len(),
        index_of_id(all.take(k - 1), id) is None,
        all[k - 1].id == id,
    ensures
        index_of_id(all, id) == Some(k - 1),
    decreases all.len(),
{
    if k < all.len() {
        assert(all.drop_last().take(k - 1) =~= all.take(k - 1));
        lemma_index_of_id_prefix(all.drop_last(), id, k);
    } else {
        assert(all.drop_last() =~= all.take(k - 1));
    }
}

/// The index of the channel with id `id`.
pub fn find_channel(all: &Vec<VoiceChannel>, id: u64) -> (r: Option<usize>)
    ensures
        match index_of_id(all@, id) {
            Some(i) => r == Some(i as usize) && i < all@.len(),
            None => r is None,
        },
        r matches Some(i) ==> i < all@.len() && index_of_id(all@, id) == Some(i as int),
{
    let mut i: usize = 0;
    while i < all.len()
        invariant
            i <= all@.len(),
            index_of_id(all@.take(i as int), id) is None,
        decreases all@.len() - i,
    {
        assert(all@.take(i + 1).drop_last() =~= all@.take(i as int));
        if all[i].id == id {
            proof {
                lemma_index_of_id_prefix(all@, id, i + 1);
            }
            return Some(i);
        }
        i = i + 1;
    }
    assert(all@.take(all@.len() as int) =~= all@);
    None
}

/// The name of a new family member: the base name followed by its number.
pub fn clone_name(base: &str, num: usize) -> (s: String)
    ensures
        s@ == base@ + decimal(num as nat),
{
    let mut s = String::from_str(base);
    push_decimal(&mut s, num as u64);
    s
}

/// A family of expanding voice channels, known by its first channel.
pub struct ChannelFamily(pub u64);

impl ChannelFamily {
    /// The family's channels sorted by number; empty when the first channel is gone,
    /// `None` where a number cannot be read.
    pub fn get_channels(&self, all: &Vec<VoiceChannel>) -> (r: Option<Vec<usize>>)
        ensures
            match index_of_id(all@, self.0) {
                None => r matches Some(v) && v@.len() == 0,
                Some(p) => sorted_family_result(all@, p, opt_view(r)),
            },
    {
        match find_channel(all, self.0) {
            None => Some(Vec::new()),
            Some(p) => sorted_family(all, p),
        }
    }

    /// The ids of the unused channels to delete, all but `min` of them, starting from
    /// the last.
    pub fn remove_excess_channels(&self, all: &Vec<VoiceChannel>, min: usize) -> (r: Option<Vec<usize>>)
        ensures
            match index_of_id(all@, self.0) {
                None => r matches Some(v) && v@.len() == 0,
                Some(p) => {
                    &&& r is None <==> (exists|v: Option<Seq<usize>>| v is None
                        && sorted_family_result(all@, p, v))
                    &&& r matches Some(v) ==> exists|sorted: Seq<usize>|
                        sorted_family_result(all@, p, Some(sorted)) && v@ == excess_channels(
                            all@,
                            sorted,
                            min,
                        )
                },
            },
    {
        match self.get_channels(all) {
            None => None,
            Some(sorted) => {
                let count = all.len();
                proof {
                    assert(all@.len() == count);
                    lemma_index_of_id_range(all@, self.0);
                    assert(opt_view(Some(sorted)) == Some(sorted@));
                    lemma_sorted_in_range(all@, self.0, sorted@);
                }
                let r = excess_to_remove(all, &sorted, min);
                Some(r)
            },
        }
    }

    /// Whether another channel is needed: all are in use and there are fewer than
    /// `max`.
    pub fn needs_more(&self, all: &Vec<VoiceChannel>, max: usize) -> (r: Option<bool>)
        ensures
            match index_of_id(all@, self.0) {
                None => r == Some(0 < max),
                Some(p) => {
                    &&& r is None <==> (exists|v: Option<Seq<usize>>| v is None
                        && sorted_family_result(all@, p, v))
                    &&& r matches Some(b) ==> exists|sorted: Seq<usize>|
                        sorted_family_result(all@, p, Some(sorted)) && b == needs_more_channels(
                            all@,
                            sorted,
                            max,
                        )
                },
            },
    {
        match self.get_channels(all) {
            None => None,
            Some(sorted) => {
                let count = all.len();
                proof {
                    assert(all@.len() == count);
                    lemma_index_of_id_range(all@, self.0);
                    assert(opt_view(Some(sorted)) == Some(sorted@));
                    lemma_sorted_in_range(all@, self.0, sorted@);
                }
                Some(needs_more(all, &sorted, max))
            },
        }
    }
}

/// The channels of a queue group: the family of channel `p`, in guild order; `None`
/// where the name of `p` cannot be read.
pub open spec fn group_channels(all: Seq<VoiceChannel>, p: int) -> Option<Seq<usize>> {
    match divided_name(all[p].name@) {
        None => None,
        Some((base, _)) => Some(family(all, base, all[p].parent_id)),
    }
}

/// The channels of a queue group to delete: unused ones numbered above 2.
pub open spec fn group_excess(all: Seq<VoiceChannel>, f: Seq<usize>) -> Seq<usize> {
    f.filter(|c: usize| all[c as int].members == 0 && number_of(all, c) > 2)
}

/// A group of queue channels that grows without bound, known by its first channel.
pub struct ChannelGroup(pub u64);

impl ChannelGroup {
    /// The group's channels in guild order; empty when the first channel is gone,
    /// `None` where the first channel's name cannot be read.
    pub fn get_channels(&self, all: &Vec<VoiceChannel>) -> (r: Option<Vec<usize>>)
        ensures
            match index_of_id(all@, self.0) {
                None => r matches Some(v) && v@.len() == 0,
                Some(p) => opt_view(r) == group_channels(all@, p),
            },
            r matches Some(v) ==> forall|i: int| 0 <= i < v@.len() ==> v@[i] < all@.len(),
    {
        let count = all.len();
        proof {
            lemma_index_of_id_range(all@, self.0);
        }
        match find_channel(all, self.0) {
            None => Some(Vec::new()),
            Some(p) => match divide_channel_name(all[p].name.as_str()) {
                None => None,
                Some((base, _)) => {
                    let f = family_indices(all, base.as_str(), all[p].parent_id);
                    proof {
                        assert(all@.len() == count);
                        lemma_family_increasing(all@, base@, all@[p as int].parent_id);
                    }
                    Some(f)
                },
            },
        }
    }

    /// The channels to delete: unused ones numbered above 2; `None` where a number
    /// cannot be read.
    pub fn remove_excess_channels(&self, all: &Vec<VoiceChannel>) -> (r: Option<Vec<usize>>)
        ensures
            match index_of_id(all@, self.0) {
                None => r matches Some(v) && v@.len() == 0,
                Some(p) => match group_channels(all@, p) {
                    None => r is None,
                    Some(f) => if numbers_readable(all@, f) {
                        r matches Some(v) && v@ == group_excess(all@, f)
                    } else {
                        r is None
                    },
                },
            },
    {
        let f = match self.get_channels(all) {
            None => return None,
            Some(f) => f,
        };
        let nums = match family_numbers(all, &f) {
            None => return None,
            Some(n) => n,
        };
        let ghost pred = |c: usize| all@[c as int].members == 0 && number_of(all@, c) > 2;
        let mut r: Vec<usize> = Vec::new();
        for i in 0..f.len()
            invariant
                nums@.len() == f@.len(),
                forall|m: int| 0 <= m < f@.len() ==> f@[m] < all@.len(),
                forall|m: int| #![trigger f@[m]] 0 <= m < f@.len() ==> nums@[m] == number_of(all@, f@[m]),
                pred == (|c: usize| all@[c as int].members == 0 && number_of(all@, c) > 2),
                r@ == f@.take(i as int).filter(pred),
        {
            reveal_with_fuel(Seq::filter, 1);
            assert(f@.take(i + 1).drop_last() =~= f@.take(i as int));
            assert(nums@[i as int] == number_of(all@, f@[i as int]));
            if all[f[i]].members == 0 && nums[i] > 2 {
                r.push(f[i]);
            }
        }
        assert(f@.take(f@.len() as int) =~= f@);
        Some(r)
    }

    /// Whether all channels of the group are in use; `None` where the first channel's
    /// name cannot be read.
    pub fn needs_more(&self, all: &Vec<VoiceChannel>) -> (r: Option<bool>)
        ensures
            match index_of_id(all@, self.0) {
                None => r == Some(true),
                Some(p) => match group_channels(all@, p) {
                    None => r is None,
                    Some(f) => r == Some(forall|i: int| 0 <= i < f.len() ==> all[#[trigger] f[i] as int].members > 0),
                },
            },
    {
        match self.get_channels(all) {
            None => None,
            Some(f) => Some(all_in_use(all, &f)),
        }
    }

    /// The number of the next channel: one more than the highest (0 without channels);
    /// `None` where a number cannot be read or the next one does not fit a `usize`.
    pub fn next_number(&self, all: &Vec<VoiceChannel>) -> (r: Option<usize>)
        ensures
            match index_of_id(all@, self.0) {
                None => r == Some(1usize),
                Some(p) => match group_channels(all@, p) {
                    None => r is None,
                    Some(f) => if numbers_readable(all@, f) && max_or(numbers(all@, f), 0) < usize::MAX {
                        r == Some((max_or(numbers(all@, f), 0) + 1) as usize)
                    } else {
                        r is None
                    },
                },
            },
    {
        let f = match self.get_channels(all) {
            None => return None,
            Some(f) => f,
        };
        let nums = match family_numbers(all, &f) {
            None => return None,
            Some(n) => n,
        };
        assert(nums@.map_values(|n: usize| n as int) =~= numbers(all@, f@));
        let top = max_number(&nums, 0);
        if top == usize::MAX {
            None
        } else {
            Some(top + 1)
        }
    }

    /// The highest position of the group's channels as a `u32` (positions beyond it
    /// as 0), 0 without channels; `None` where the first channel's name cannot be read.
    pub fn highest_pos(&self, all: &Vec<VoiceChannel>) -> (r: Option<u64>)
        ensures
            match index_of_id(all@, self.0) {
                None => r == Some(0u64),
                Some(p) => match group_channels(all@, p) {
                    None => r is None,
                    Some(f) => r == Some(max_or(positions_u32(all@, f), 0) as u64),
                },
            },
    {
        match self.get_channels(all) {
            None => None,
            Some(f) => Some(highest_position(all, &f, true)),
        }
    }
}

/// The family of channel `id` in guild order: empty when the channel is gone, `None`
/// where its name cannot be read.
pub open spec fn family_of_id(all: Seq<VoiceChannel>, id: u64) -> Option<Seq<usize>> {
    match index_of_id(all, id) {
        None => Some(seq![]),
        Some(p) => group_channels(all, p),
    }
}

/// What [`ChannelFamily::next_num_pos`] gives: one more than the highest number of
/// the family (1 without channels) and its highest position, when every number can
/// be read and the next one fits a `usize`.
pub open spec fn next_family_slot(all: Seq<VoiceChannel>, id: u64) -> Option<(usize, u64)> {
    match family_of_id(all, id) {
        None => None,
        Some(f) => if numbers_readable(all, f) && max_or(numbers(all, f), 1) < usize::MAX {
            Some(((max_or(numbers(all, f), 1) + 1) as usize, max_or(positions_usize(all, f), 0) as u64))
        } else {
            None
        },
    }
}

/// The largest of some numbers is one of them, and no number is larger.
proof fn lemma_max_or_is_max(s: Seq<int>, d: int)
    requires
        s.len() > 0,
    ensures
        s.contains(max_or(s, d)),
        forall|i: int| 0 <= i < s.len() ==> s[i] <= max_or(s, d),
    decreases s.len(),
{
    if s.len() == 1 {
        assert(s[0] == max_or(s, d));
    } else {
        lemma_max_or_is_max(s.drop_last(), d);
        let m = max_or(s.drop_last(), d);
        let k = choose|k: int| 0 <= k < s.drop_last().len() && s.drop_last()[k] == m;
        assert(s[k] == m);
        if s.last() > m {
            assert(s[s.len() - 1] == max_or(s, d));
        }
        assert forall|i: int| 0 <= i < s.len() implies s[i] <= max_or(s, d) by {
            if i < s.len() - 1 {
                assert(s[i] == s.drop_last()[i]);
            }
        }
    }
}

/// Two lists of numbers with the same values have the same largest one.
proof fn lemma_max_or_same_values(a: Seq<int>, b: Seq<int>, d: int)
    requires
        a.len() == b.len(),
        forall|x: int| a.contains(x) <==> b.contains(x),
    ensures
        max_or(a, d) == max_or(b, d),
{
    if a.len() > 0 {
        lemma_max_or_is_max(a, d);
        lemma_max_or_is_max(b, d);
        let ma = max_or(a, d);
        let mb = max_or(b, d);
        assert(b.contains(ma));
        assert(a.contains(mb));
        let i = choose|i: int| 0 <= i < b.len() && b[i] == ma;
        let j = choose|j: int| 0 <= j < a.len() && a[j] == mb;
        assert(ma <= mb);
        assert(mb <= ma);
    }
}

/// A family sorted by number holds the same numbers and positions as the family, and
/// its numbers can be read as those of the family can.
proof fn lemma_sorted_same_values(all: Seq<VoiceChannel>, f: Seq<usize>, v: Seq<usize>)
    requires
        v.len() == f.len(),
        forall|x: usize| v.contains(x) <==> f.contains(x),
    ensures
        numbers_readable(all, v) <==> numbers_readable(all, f),
        max_or(numbers(all, v), 1) == max_or(numbers(all, f), 1),
        max_or(positions_usize(all, v), 0) == max_or(positions_usize(all, f), 0),
{
    assert(numbers_readable(all, f) ==> numbers_readable(all, v)) by {
        if numbers_readable(all, f) {
            assert forall|i: int| 0 <= i < v.len() implies (#[trigger] divided_name(
                all[v[i] as int].name@,
            )) is Some by {
                assert(v.contains(v[i]));
                let k = choose|k: int| 0 <= k < f.len() && f[k] == v[i];
                assert(divided_name(all[f[k] as int].name@) is Some);
            }
        }
    }
    assert(numbers_readable(all, v) ==> numbers_readable(all, f)) by {
        if numbers_readable(all, v) {
            assert forall|i: int| 0 <= i < f.len() implies (#[trigger] divided_name(
                all[f[i] as int].name@,
            )) is Some by {
                assert(f.contains(f[i]));
                let k = choose|k: int| 0 <= k < v.len() && v[k] == f[i];
                assert(divided_name(all[v[k] as int].name@) is Some);
            }
        }
    }
    let nv = numbers(all, v);
    let nf = numbers(all, f);
    assert forall|x: int| nv.contains(x) <==> nf.contains(x) by {
        if nv.contains(x) {
            let i = choose|i: int| 0 <= i < nv.len() && nv[i] == x;
            assert(v.contains(v[i]));
            let k = choose|k: int| 0 <= k < f.len() && f[k] == v[i];
            assert(nf[k] == x);
        }
        if nf.contains(x) {
            let i = choose|i: int| 0 <= i < nf.len() && nf[i] == x;
            assert(f.contains(f[i]));
            let k = choose|k: int| 0 <= k < v.len() && v[k] == f[i];
            assert(nv[k] == x);
        }
    }
    lemma_max_or_same_values(nv, nf, 1);
    let pv = positions_usize(all, v);
    let pf = positions_usize(all, f);
    assert forall|x: int| pv.contains(x) <==> pf.contains(x) by {
        if pv.contains(x) {
            let i = choose|i: int| 0 <= i < pv.len() && pv[i] == x;
            assert(v.contains(v[i]));
            let k = choose|k: int| 0 <= k < f.len() && f[k] == v[i];
            assert(pf[k] == x);
        }
        if pf.contains(x) {
            let i = choose|i: int| 0 <= i < pf.len() && pf[i] == x;
            assert(f.contains(f[i]));
            let k = choose|k: int| 0 <= k < v.len() && v[k] == f[i];
            assert(pv[k] == x);
        }
    }
    lemma_max_or_same_values(pv, pf, 0);
}

impl ChannelFamily {
    /// The number and position for a new channel: one more than the highest number
    /// (1 without channels) and the highest position (negative positions as 0, 0
    /// without channels); `None` where a number cannot be read or the next one does
    /// not fit a `usize`.
    pub fn next_num_pos(&self, all: &Vec<VoiceChannel>) -> (r: Option<(usize, u64)>)
        ensures
            r matches Some(np) ==> exists|sorted: Seq<usize>|
                (match index_of_id(all@, self.0) {
                    None => sorted.len() == 0,
                    Some(p) => sorted_family_result(all@, p, Some(sorted)),
                }) && numbers_readable(all@, sorted) && np.0 == max_or(numbers(all@, sorted), 1) + 1
                    && np.1 == max_or(positions_usize(all@, sorted), 0),
            r == next_family_slot(all@, self.0),
    {
        let sorted = match self.get_channels(all) {
            None => return None,
            Some(v) => v,
        };
        let count = all.len();
        proof {
            assert(all@.len() == count);
            lemma_index_of_id_range(all@, self.0);
            assert(opt_view(Some(sorted)) == Some(sorted@));
            lemma_sorted_in_range(all@, self.0, sorted@);
            match family_of_id(all@, self.0) {
                None => {},
                Some(f) => {
                    if f.len() < 2 {
                        if let Some(p) = index_of_id(all@, self.0) {
                            assert(sorted@ == f);
                        } else {
                            assert(sorted@ =~= f);
                        }
                    } else {
                        assert(numbers_readable(all@, f));
                        assert(sorted_family_of(all@, f, sorted@));
                    }
                    lemma_sorted_same_values(all@, f, sorted@);
                },
            }
        }
        let nums = match family_numbers(all, &sorted) {
            None => return None,
            Some(n) => n,
        };
        assert(nums@.map_values(|n: usize| n as int) =~= numbers(all@, sorted@));
        let top = max_number(&nums, 1);
        if top == usize::MAX {
            return None;
        }
        let pos = highest_position(all, &sorted, false);
        Some((top + 1, pos))
    }
}

/// The channels of a family result are channels of the guild.
proof fn lemma_sorted_in_range(all: Seq<VoiceChannel>, id: u64, v: Seq<usize>)
    requires
        all.len() <= usize::MAX,
        match index_of_id(all, id) {
            None => v.len() == 0,
            Some(p) => 0 <= p < all.len() && sorted_family_result(all, p, Some(v)),
        },
    ensures
        forall|i: int| 0 <= i < v.len() ==> v[i] < all.len(),
{
    if let Some(p) = index_of_id(all, id) {
        if let Some((base, _)) = divided_name(all[p].name@) {
            let f = family(all, base, all[p].parent_id);
            lemma_family_increasing(all, base, all[p].parent_id);
            assert forall|i: int| 0 <= i < v.len() implies v[i] < all.len() by {
                if f.len() < 2 {
                    assert(v[i] == f[i]);
                } else {
                    assert(v.contains(v[i]));
                    assert(f.contains(v[i]));
                }
            }
        }
    }
}

/// A voice update is handled when the user left voice or the update is from the
/// bot's guild.
pub fn voice_update_applies(new_channel: Option<u64>, new_guild: Option<u64>, guild: u64) -> (r: bool)
    ensures
        r == (new_channel is None || new_guild == Some(guild)),
{
    new_channel.is_none() || new_guild == Some(guild)
}

/// The user joined a voice channel or moved to another one: the new state has a
/// channel, and there was no old state or it had another channel.
pub open spec fn joined_channel(old_channel: Option<Option<u64>>, new_channel: Option<u64>) -> bool {
    new_channel is Some && match old_channel {
        None => true,
        Some(o) => o != new_channel,
    }
}

/// Whether a voice update is one on which full channel families grow: the user
/// joined a voice channel or moved to another one.
pub fn joined_a_channel(old_channel: Option<Option<u64>>, new_channel: Option<u64>) -> (r: bool)
    ensures
        r == joined_channel(old_channel, new_channel),
{
    new_channel.is_some() && match old_channel {
        None => true,
        Some(o) => o != new_channel,
    }
}

/// How many channels a family or queue group gets on a voice update: two when the
/// user joined a channel or moved to another one and the family is full (`full`, as
/// `needs_more` reports it), none otherwise.
pub fn channels_to_create(old_channel: Option<Option<u64>>, new_channel: Option<u64>, full: bool) -> (r: usize)
    ensures
        r == (if joined_channel(old_channel, new_channel) && full { 2usize } else { 0usize }),
{
    if joined_a_channel(old_channel, new_channel) && full {
        2
    } else {
        0
    }
}

} // verus!
