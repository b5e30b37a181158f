//! Councils: the members of each council, listed with the heads first.

use vstd::prelude::*;

use crate::embed::{empty_embed, text_is, Embed};
use crate::roles::holds;
use crate::text::{push_str, push_user_mention, str_eq, user_mention};

verus! {

/// What the council listing reads of a guild member.
#[derive(Debug)]
pub struct CouncilMember {
    pub id: u64,
    pub display_name: String,
    pub roles: Vec<u64>,
}

/// A council: its name, its member role and its head role.
#[derive(Debug)]
pub struct CouncilInfo {
    pub name: String,
    pub role: u64,
    pub head: u64,
}

/// The listing of one council.
#[derive(Debug)]
pub struct CouncilListing {
    pub name: String,
    pub text: String,
}

/// How a member is named in a listing: the mention and the display name.
pub open spec fn member_label(m: CouncilMember) -> Seq<char> {
    user_mention(m.id) + " ("@ + m.display_name@ + ")"@
}

/// The listing of a council over the members in order: a head is put in front with
/// `- Council Head`, a member at the end; `None` when nobody has either role.
pub open spec fn council_text(ms: Seq<CouncilMember>, role: u64, head: u64) -> Option<Seq<char>>
    decreases ms.len(),
{
    if ms.len() == 0 {
        None
    } else {
        let prev = council_text(ms.drop_last(), role, head);
        let m = ms.last();
        if m.roles@.contains(role) || m.roles@.contains(head) {
            let x = match prev {
                Some(t) => t,
                None => seq![],
            };
            Some(
                if m.roles@.contains(head) {
                    member_label(m) + " - Council Head\n"@ + x
                } else {
                    x + "\n"@ + member_label(m)
                },
            )
        } else {
            prev
        }
    }
}

fn push_label(s: &mut String, m: &CouncilMember)
    ensures
        final(s)@ == old(s)@ + member_label(*m),
{
    let ghost start = s@;
    push_user_mention(s, m.id);
    push_str(s, " (");
    push_str(s, m.display_name.as_str());
    push_str(s, ")");
    assert(s@ =~= start + member_label(*m));
}

/// Lists the members of the council with member role `role` and head role `head`.
pub fn council_listing(ms: &Vec<CouncilMember>, role: u64, head: u64) -> (r: Option<String>)
    ensures
        match council_text(ms@, role, head) {
            Some(t) => r matches Some(s) && s@ == t,
            None => r is None,
        },
{
    let mut cur: Option<String> = None;
    let mut i: usize = 0;
    while i < ms.len()
        invariant
            i <= ms@.len(),
            match council_text(ms@.take(i as int), role, head) {
                Some(t) => cur matches Some(s) && s@ == t,
                None => cur is None,
            },
        decreases ms@.len() - i,
    {
        assert(ms@.take(i + 1).drop_last() =~= ms@.take(i as int));
        assert(ms@.take(i + 1).last() == ms@[i as int]);
        let m = &ms[i];
        let is_head = holds(&m.roles, head);
        if holds(&m.roles, role) || is_head {
            let x = match cur {
                Some(t) => t,
                None => String::new(),
            };
            let mut next = String::new();
            if is_head {
                push_label(&mut next, m);
                push_str(&mut next, " - Council Head\n");
                push_str(&mut next, x.as_str());
            } else {
                push_str(&mut next, x.as_str());
                push_str(&mut next, "\n");
                push_label(&mut next, m);
            }
            cur = Some(next);
        }
        i = i + 1;
    }
    assert(ms@.take(ms@.len() as int) =~= ms@);
    cur
}

/// The listings of the councils that have members, in the order of the councils: each
/// council's name and its listing.
pub open spec fn council_listings(ms: Seq<CouncilMember>, councils: Seq<CouncilInfo>) -> Seq<
    (Seq<char>, Seq<char>),
>
    decreases councils.len(),
{
    if councils.len() == 0 {
        seq![]
    } else {
        let c = councils.last();
        council_listings(ms, councils.drop_last()) + match council_text(ms, c.role, c.head) {
            Some(t) => seq![(c.name@, t)],
            None => seq![],
        }
    }
}

/// A listing as plain values.
pub open spec fn listing_view(l: CouncilListing) -> (Seq<char>, Seq<char>) {
    (l.name@, l.text@)
}

/// Lists every council that has members, in the order of the councils.
pub fn update_councils(ms: &Vec<CouncilMember>, councils: &Vec<CouncilInfo>) -> (r: Vec<CouncilListing>)
    ensures
        r@.map_values(|l: CouncilListing| listing_view(l)) == council_listings(ms@, councils@),
{
    let mut r: Vec<CouncilListing> = Vec::new();
    let mut c: usize = 0;
    while c < councils.len()
        invariant
            c <= councils@.len(),
            r@.map_values(|l: CouncilListing| listing_view(l)) == council_listings(
                ms@,
                councils@.take(c as int),
            ),
        decreases councils@.len() - c,
    {
        assert(councils@.take(c + 1).drop_last() =~= councils@.take(c as int));
        assert(councils@.take(c + 1).last() == councils@[c as int]);
        let info = &councils[c];
        let ghost before = r@.map_values(|l: CouncilListing| listing_view(l));
        match council_listing(ms, info.role, info.head) {
            Some(text) => {
                let name = String::from_str(info.name.as_str());
                r.push(CouncilListing { name, text });
                assert(r@.map_values(|l: CouncilListing| listing_view(l)) =~= before + seq![
                    (info.name@, text@),
                ]);
            },
            None => {
                assert(before + Seq::<(Seq<char>, Seq<char>)>::empty() =~= before);
            },
        }
        c = c + 1;
    }
    assert(councils@.take(councils@.len() as int) =~= councils@);
    r
}

/// The listing of the council named `name`, if it has one.
pub fn get_council(listings: &Vec<CouncilListing>, name: &str) -> (r: Option<usize>)
    ensures
        match r {
            Some(k) => k < listings@.len() && listings@[k as int].name@ == name@,
            None => forall|k: int| 0 <= k < listings@.len() ==> (#[trigger] listings@[k]).name@ != name@,
        },
{
    let mut i: usize = 0;
    while i < listings.len()
        invariant
            i <= listings@.len(),
            forall|k: int| 0 <= k < i ==> (#[trigger] listings@[k]).name@ != name@,
        decreases listings@.len() - i,
    {
        if str_eq(listings[i].name.as_str(), name) {
            return Some(i);
        }
        i = i + 1;
    }
    None
}

/// The colour of the council messages.
pub const COUNCIL_COLOR: u64 = 0xbb77fc;

/// The answer to the council command: the council's listing under `<name> Council`,
/// or, when it has none yet, that the councils are not loaded.
pub fn council_embed(name: &str, listing: Option<&CouncilListing>) -> (e: Embed)
    ensures
        match listing {
            Some(l) => text_is(e.title, name@ + " Council"@) && text_is(e.description, l.text@),
            None => text_is(e.title, "Invalid Council"@) && text_is(
                e.description,
                "The councils are not yet loaded!"@,
            ),
        },
        e.color == Some(COUNCIL_COLOR),
        e.author is None && e.url is None && e.fields@.len() == 0 && e.image is None
            && e.thumbnail is None && e.footer is None && e.timestamp is None,
{
    let mut e = empty_embed();
    match listing {
        Some(l) => {
            let mut t = String::from_str(name);
            push_str(&mut t, " Council");
            e.title = Some(t);
            e.description = Some(String::from_str(l.text.as_str()));
        },
        None => {
            e.title = Some(String::from_str("Invalid Council"));
            e.description = Some(String::from_str("The councils are not yet loaded!"));
        },
    }
    e.color = Some(COUNCIL_COLOR);
    e
}

} // verus!
