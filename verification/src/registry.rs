//! The slash commands registered with Discord: which handlers still need registering,
//! what a reload removes and answers, and the names offered while typing.

use vstd::prelude::*;

use crate::text::{contains, chars_contain, chars_of, push_decimal, push_str, str_eq, decimal};

verus! {

/// `name` is among `names`.
pub open spec fn named(names: Seq<String>, name: Seq<char>) -> bool {
    exists|i: int| 0 <= i < names.len() && (#[trigger] names[i])@ == name
}

/// Whether `name` is among `names`.
pub fn has_name(names: &Vec<String>, name: &str) -> (r: bool)
    ensures
        r == named(names@, name@),
{
    let mut i: usize = 0;
    while i < names.len()
        invariant
            i <= names@.len(),
            forall|k: int| 0 <= k < i ==> (#[trigger] names@[k])@ != name@,
        decreases names@.len() - i,
    {
        if str_eq(names[i].as_str(), name) {
            return true;
        }
        i = i + 1;
    }
    false
}

/// Which handlers are registered: each handler whose name is not among the commands
/// already registered (all of them when the registered commands could not be read).
pub fn registration_plan(handlers: &Vec<String>, registered: &Option<Vec<String>>) -> (r: Vec<bool>)
    ensures
        r@.len() == handlers@.len(),
        forall|i: int|
            0 <= i < handlers@.len() ==> #[trigger] r@[i] == match registered {
                Some(cmds) => !named(cmds@, handlers@[i]@),
                None => true,
            },
{
    let mut r: Vec<bool> = Vec::new();
    let mut i: usize = 0;
    while i < handlers.len()
        invariant
            i <= handlers@.len(),
            r@.len() == i,
            forall|k: int|
                0 <= k < i ==> #[trigger] r@[k] == match registered {
                    Some(cmds) => !named(cmds@, handlers@[k]@),
                    None => true,
                },
        decreases handlers@.len() - i,
    {
        let register = match registered {
            Some(cmds) => !has_name(cmds, handlers[i].as_str()),
            None => true,
        };
        r.push(register);
        i = i + 1;
    }
    r
}

/// The outcome of registering every handler: the first failure, or success.
pub open spec fn first_failure(results: Seq<Result<(), String>>) -> Option<int>
    decreases results.len(),
{
    if results.len() == 0 {
        None
    } else {
        match first_failure(results.drop_last()) {
            Some(i) => Some(i),
            None => if results.last() is Err {
                Some(results.len() - 1)
            } else {
                None
            },
        }
    }
}

/// Combines the outcomes of the registrations: the first failure, or success.
pub fn combine_results(results: &Vec<Result<(), String>>) -> (r: Option<usize>)
    ensures
        match r {
            Some(k) => first_failure(results@) == Some(k as int) && k < results@.len(),
            None => first_failure(results@) is None,
        },
{
    let mut i: usize = 0;
    while i < results.len()
        invariant
            i <= results@.len(),
            first_failure(results@.take(i as int)) is None,
        decreases results@.len() - i,
    {
        assert(results@.take(i + 1).drop_last() =~= results@.take(i as int));
        if results[i].is_err() {
            proof {
                lemma_first_failure_prefix(results@, i + 1);
            }
            return Some(i);
        }
        i = i + 1;
    }
    assert(results@.take(results@.len() as int) =~= results@);
    None
}

proof fn lemma_first_failure_prefix(results: Seq<Result<(), String>>, k: int)
    requires
        0 < k <= results.len(),
        first_failure(results.take(k - 1)) is None,
        results[k - 1] is Err,
    ensures
        first_failure(results) == Some(k - 1),
    decreases results.len(),
{
    if k < results.len() {
        assert(results.drop_last().take(k - 1) =~= results.take(k - 1));
        lemma_first_failure_prefix(results.drop_last(), k);
    } else {
        assert(results.drop_last() =~= results.take(k - 1));
    }
}

/// The command that removes and registers the commands again.
pub struct Reload;

impl Reload {
    /// The command's name.
    pub fn name(&self) -> (s: String)
        ensures
            s@ == "reload"@,
    {
        String::from_str("reload")
    }
}

/// A reload that names `only` removes the commands of that name; one that names none
/// removes all.
pub open spec fn selected(only: Option<String>, name: Seq<char>) -> bool {
    match only {
        Some(o) => name == o@,
        None => true,
    }
}

/// The commands a reload removes: those named `only`, or all.
pub fn commands_to_remove(commands: &Vec<String>, only: &Option<String>) -> (r: Vec<usize>)
    ensures
        forall|k: int| 0 <= k < r@.len() ==> (#[trigger] r@[k]) < commands@.len(),
        forall|a: int, b: int| 0 <= a < b < r@.len() ==> r@[a] < r@[b],
        forall|i: int|
            0 <= i < commands@.len() ==> (r@.contains(i as usize) <==> selected(
                *only,
                (#[trigger] commands@[i])@,
            )),
{
    let mut r: Vec<usize> = Vec::new();
    let mut i: usize = 0;
    while i < commands.len()
        invariant
            i <= commands@.len(),
            forall|k: int| 0 <= k < r@.len() ==> (#[trigger] r@[k]) < i,
            forall|a: int, b: int| 0 <= a < b < r@.len() ==> r@[a] < r@[b],
            forall|j: int|
                0 <= j < i ==> (r@.contains(j as usize) <==> selected(
                    *only,
                    (#[trigger] commands@[j])@,
                )),
        decreases commands@.len() - i,
    {
        let ghost before = r@;
        let take = match only {
            Some(o) => str_eq(commands[i].as_str(), o.as_str()),
            None => true,
        };
        if take {
            r.push(i);
        }
        proof {
            assert(!before.contains(i)) by {
                if before.contains(i) {
                    let k = choose|k: int| 0 <= k < before.len() && before[k] == i;
                    assert(before[k] < i);
                }
            }
            assert forall|j: int| 0 <= j < i + 1 implies (r@.contains(j as usize) <==> selected(
                *only,
                (#[trigger] commands@[j])@,
            )) by {
                if take {
                    crate::roles::lemma_push_contains(before, i, j as usize);
                }
            }
        }
        i = i + 1;
    }
    r
}

/// The answer after removing `removed` commands; `first` names the first of them.
pub open spec fn removal_text(removed: nat, first: Seq<char>) -> Seq<char> {
    if removed == 0 {
        "Removed no commands."@
    } else if removed == 1 {
        "Removed command `/"@ + first + "`\nAdding command back now..."@
    } else {
        "Removed all commands.\nAdding commands back now..."@
    }
}

/// Writes the answer after removing the commands.
pub fn removal_message(removed: &Vec<String>) -> (s: String)
    ensures
        s@ == removal_text(removed@.len(), if removed@.len() > 0 { removed@[0]@ } else { seq![] }),
{
    if removed.len() == 0 {
        String::from_str("Removed no commands.")
    } else if removed.len() == 1 {
        let mut s = String::from_str("Removed command `/");
        push_str(&mut s, removed[0].as_str());
        push_str(&mut s, "`\nAdding command back now...");
        s
    } else {
        String::from_str("Removed all commands.\nAdding commands back now...")
    }
}

/// The follow-up after registering the commands again.
pub fn reload_result_message(error: &Option<String>) -> (s: String)
    ensures
        s@ == match error {
            None => "Successfully reloaded!"@,
            Some(e) => "Reloading failed: "@ + e@,
        },
{
    match error {
        None => String::from_str("Successfully reloaded!"),
        Some(e) => {
            let mut s = String::from_str("Reloading failed: ");
            push_str(&mut s, e.as_str());
            s
        },
    }
}

/// Discord offers at most this many choices.
pub const MAX_CHOICES: usize = 25;

/// Appends the names that hold `typed` and are not offered yet, while fewer than 25
/// are offered.
fn offer_matching(r: &mut Vec<String>, names: &Vec<String>, typed: &str)
    requires
        old(r)@.len() <= MAX_CHOICES,
        forall|a: int, b: int| 0 <= a < b < old(r)@.len() ==> old(r)@[a]@ != old(r)@[b]@,
    ensures
        final(r)@.len() <= MAX_CHOICES,
        final(r)@.len() >= old(r)@.len(),
        forall|k: int| 0 <= k < old(r)@.len() ==> final(r)@[k] == old(r)@[k],
        forall|a: int, b: int| 0 <= a < b < final(r)@.len() ==> final(r)@[a]@ != final(r)@[b]@,
        forall|k: int|
            old(r)@.len() <= k < final(r)@.len() ==> contains((#[trigger] final(r)@[k])@, typed@)
                && named(names@, final(r)@[k]@),
        final(r)@.len() < MAX_CHOICES ==> forall|i: int|
            0 <= i < names@.len() && contains((#[trigger] names@[i])@, typed@) ==> named(
                final(r)@,
                names@[i]@,
            ),
{
    let ghost start = r@;
    let t = chars_of(typed);
    let mut i: usize = 0;
    while i < names.len() && r.len() < MAX_CHOICES
        invariant
            i <= names@.len(),
            t@ == typed@,
            r@.len() <= MAX_CHOICES,
            r@.len() >= start.len(),
            forall|k: int| 0 <= k < start.len() ==> r@[k] == start[k],
            forall|a: int, b: int| 0 <= a < b < r@.len() ==> r@[a]@ != r@[b]@,
            forall|k: int|
                start.len() <= k < r@.len() ==> contains((#[trigger] r@[k])@, typed@) && named(
                    names@,
                    r@[k]@,
                ),
            r@.len() < MAX_CHOICES ==> forall|j: int|
                0 <= j < i && contains((#[trigger] names@[j])@, typed@) ==> named(r@, names@[j]@),
        decreases names@.len() - i,
    {
        let name = &names[i];
        let nc = chars_of(name.as_str());
        let ghost before = r@;
        let holds_typed = chars_contain(nc.as_slice(), t.as_slice());
        if holds_typed && !has_name(r, name.as_str()) {
            r.push(String::from_str(name.as_str()));
            proof {
                assert forall|a: int, b: int| 0 <= a < b < r@.len() implies r@[a]@ != r@[b]@ by {
                    if b == r@.len() - 1 {
                        assert(r@[a] == before[a]);
                    }
                }
                assert forall|k: int| start.len() <= k < r@.len() implies contains(
                    (#[trigger] r@[k])@,
                    typed@,
                ) && named(names@, r@[k]@) by {
                    if k < before.len() {
                        assert(r@[k] == before[k]);
                    } else {
                        assert(names@[i as int]@ == r@[k]@);
                    }
                }
                lemma_named_push(before, r@);
            }
        } else {
            proof {
                if holds_typed {
                    assert(named(r@, name@));
                }
            }
        }
        i = i + 1;
    }
}

/// The names offered while the user types `typed` in the reload command: names of
/// handlers or registered commands that hold `typed`, each once, at most 25 (the
/// names are gathered as a set, so which 25 of more is not fixed).
pub fn autocomplete_choices(handlers: &Vec<String>, registered: &Vec<String>, typed: &str) -> (r: Vec<
    String,
>)
    ensures
        r@.len() <= MAX_CHOICES,
        forall|a: int, b: int| 0 <= a < b < r@.len() ==> r@[a]@ != r@[b]@,
        forall|k: int|
            0 <= k < r@.len() ==> contains((#[trigger] r@[k])@, typed@) && (named(
                handlers@,
                r@[k]@,
            ) || named(registered@, r@[k]@)),
        r@.len() < MAX_CHOICES ==> forall|i: int|
            0 <= i < handlers@.len() && contains((#[trigger] handlers@[i])@, typed@) ==> named(
                r@,
                handlers@[i]@,
            ),
        r@.len() < MAX_CHOICES ==> forall|i: int|
            0 <= i < registered@.len() && contains((#[trigger] registered@[i])@, typed@) ==> named(
                r@,
                registered@[i]@,
            ),
{
    let mut r: Vec<String> = Vec::new();
    offer_matching(&mut r, handlers, typed);
    let ghost first = r@;
    offer_matching(&mut r, registered, typed);
    proof {
        assert forall|k: int| 0 <= k < r@.len() implies contains((#[trigger] r@[k])@, typed@) && (
        named(handlers@, r@[k]@) || named(registered@, r@[k]@)) by {
            if k < first.len() {
                assert(r@[k] == first[k]);
            }
        }
        if r@.len() < MAX_CHOICES {
            assert forall|i: int|
                0 <= i < handlers@.len() && contains((#[trigger] handlers@[i])@, typed@) implies named(
                r@,
                handlers@[i]@,
            ) by {
                assert(named(first, handlers@[i]@));
                let k = choose|k: int| 0 <= k < first.len() && (#[trigger] first[k])@ == handlers@[i]@;
                assert(r@[k] == first[k]);
            }
        }
    }
    r
}

proof fn lemma_named_push(before: Seq<String>, after: Seq<String>)
    requires
        after.len() == before.len() + 1,
        forall|k: int| 0 <= k < before.len() ==> after[k] == before[k],
    ensures
        forall|n: Seq<char>| named(before, n) ==> named(after, n),
        named(after, after[before.len() as int]@),
{
    assert forall|n: Seq<char>| named(before, n) implies named(after, n) by {
        let k = choose|k: int| 0 <= k < before.len() && (#[trigger] before[k])@ == n;
        assert(after[k]@ == n);
    }
}

/// The name of the member count channel: `Members: ` and the count.
pub fn member_count_name(count: u64) -> (s: String)
    ensures
        s@ == "Members: "@ + decimal(count as nat),
{
    let mut s = String::from_str("Members: ");
    push_decimal(&mut s, count);
    s
}

} // verus!
