//! Component ids: a handler name and arguments joined with `:`, split apart again
//! when a button is pressed.

use vstd::prelude::*;

use crate::text::{chars_of, joined, push_char, push_str};

verus! {

/// The pieces of `s` between the occurrences of `sep` (`str::split`): one more piece
/// than there are separators, empty pieces included.
pub open spec fn pieces(s: Seq<char>, sep: char) -> Seq<Seq<char>>
    decreases s.len(),
{
    if s.len() == 0 {
        seq![seq![]]
    } else {
        let p = pieces(s.drop_last(), sep);
        if s.last() == sep {
            p.push(seq![])
        } else {
            p.update(p.len() - 1, p.last().push(s.last()))
        }
    }
}

/// `s` holds no `sep`.
pub open spec fn free_of(s: Seq<char>, sep: char) -> bool {
    !s.contains(sep)
}

proof fn lemma_pieces_shape(s: Seq<char>, sep: char)
    ensures
        pieces(s, sep).len() >= 1,
        forall|i: int| 0 <= i < pieces(s, sep).len() ==> free_of(#[trigger] pieces(s, sep)[i], sep),
    decreases s.len(),
{
    if s.len() > 0 {
        lemma_pieces_shape(s.drop_last(), sep);
        let p = pieces(s.drop_last(), sep);
        if s.last() != sep {
            assert forall|i: int| 0 <= i < pieces(s, sep).len() implies free_of(
                #[trigger] pieces(s, sep)[i],
                sep,
            ) by {
                if i == p.len() - 1 {
                    assert(free_of(p[i], sep));
                    assert forall|k: int| 0 <= k < p[i].push(s.last()).len() implies p[i].push(
                        s.last(),
                    )[k] != sep by {
                        if k < p[i].len() {
                            assert(p[i][k] != sep);
                        }
                    }
                } else {
                    assert(free_of(p[i], sep));
                }
            }
        } else {
            assert forall|i: int| 0 <= i < pieces(s, sep).len() implies free_of(
                #[trigger] pieces(s, sep)[i],
                sep,
            ) by {
                if i < p.len() {
                    assert(free_of(p[i], sep));
                }
            }
        }
    }
}

proof fn lemma_joined_push(parts: Seq<Seq<char>>, x: Seq<char>, sep: Seq<char>)
    requires
        parts.len() >= 1,
    ensures
        joined(parts.push(x), sep) == joined(parts, sep) + sep + x,
{
    assert(parts.push(x).drop_last() =~= parts);
}

proof fn lemma_joined_extend_last(parts: Seq<Seq<char>>, c: char, sep: Seq<char>)
    requires
        parts.len() >= 1,
    ensures
        joined(parts.update(parts.len() - 1, parts.last().push(c)), sep) == joined(parts, sep).push(
            c,
        ),
{
    let q = parts.update(parts.len() - 1, parts.last().push(c));
    if parts.len() == 1 {
        assert(joined(q, sep) == q[0]);
    } else {
        assert(q.drop_last() =~= parts.drop_last());
        assert(joined(q, sep) == joined(parts.drop_last(), sep) + sep + parts.last().push(c));
        assert(joined(parts, sep) == joined(parts.drop_last(), sep) + sep + parts.last());
        assert((joined(parts.drop_last(), sep) + sep + parts.last()).push(c) =~= joined(
            parts.drop_last(),
            sep,
        ) + sep + parts.last().push(c));
    }
}

/// Joining the pieces of a text with the separator gives the text back.
pub proof fn lemma_pieces_join(s: Seq<char>, sep: char)
    ensures
        joined(pieces(s, sep), seq![sep]) == s,
        pieces(s, sep).len() >= 1,
        forall|i: int| 0 <= i < pieces(s, sep).len() ==> free_of(#[trigger] pieces(s, sep)[i], sep),
    decreases s.len(),
{
    lemma_pieces_shape(s, sep);
    if s.len() == 0 {
        assert(joined(seq![seq![]], seq![sep]) == Seq::<char>::empty());
        assert(s =~= Seq::<char>::empty());
    } else {
        lemma_pieces_join(s.drop_last(), sep);
        let p = pieces(s.drop_last(), sep);
        if s.last() == sep {
            lemma_joined_push(p, seq![], seq![sep]);
            assert(s.drop_last() + seq![sep] + Seq::<char>::empty() =~= s);
        } else {
            lemma_joined_extend_last(p, s.last(), seq![sep]);
            assert(s.drop_last().push(s.last()) =~= s);
        }
    }
}

proof fn lemma_pieces_append_free(a: Seq<char>, b: Seq<char>, sep: char)
    requires
        free_of(b, sep),
    ensures
        pieces(a + b, sep) == pieces(a, sep).update(
            pieces(a, sep).len() - 1,
            pieces(a, sep).last() + b,
        ),
    decreases b.len(),
{
    lemma_pieces_shape(a, sep);
    let p = pieces(a, sep);
    if b.len() == 0 {
        assert(a + b =~= a);
        assert(p.last() + b =~= p.last());
        assert(p.update(p.len() - 1, p.last()) =~= p);
    } else {
        let b0 = b.drop_last();
        assert((a + b).drop_last() =~= a + b0);
        assert(!b0.contains(sep)) by {
            if b0.contains(sep) {
                let k = choose|k: int| 0 <= k < b0.len() && b0[k] == sep;
                assert(b[k] == sep);
            }
        }
        lemma_pieces_append_free(a, b0, sep);
        assert((a + b).last() == b.last());
        assert(b.last() != sep) by {
            assert(b[b.len() - 1] == b.last());
        }
        let q = p.update(p.len() - 1, p.last() + b0);
        assert(q.last() == p.last() + b0);
        assert((p.last() + b0).push(b.last()) =~= p.last() + b);
        assert(q.update(q.len() - 1, q.last().push(b.last())) =~= p.update(
            p.len() - 1,
            p.last() + b,
        ));
    }
}

/// Parts that hold no separator are split back out of their join.
pub proof fn lemma_join_pieces(parts: Seq<Seq<char>>, sep: char)
    requires
        parts.len() >= 1,
        forall|i: int| 0 <= i < parts.len() ==> free_of(#[trigger] parts[i], sep),
    ensures
        pieces(joined(parts, seq![sep]), sep) == parts,
    decreases parts.len(),
{
    if parts.len() == 1 {
        lemma_pieces_append_free(seq![], parts[0], sep);
        assert(Seq::<char>::empty() + parts[0] =~= parts[0]);
        assert(seq![Seq::<char>::empty()].update(0, Seq::<char>::empty() + parts[0]) =~= parts);
    } else {
        let front = parts.drop_last();
        assert forall|i: int| 0 <= i < front.len() implies free_of(#[trigger] front[i], sep) by {
            assert(front[i] == parts[i]);
        }
        lemma_join_pieces(front, sep);
        let a = joined(front, seq![sep]);
        assert(free_of(parts[parts.len() - 1], sep));
        lemma_pieces_append_free(a + seq![sep], parts.last(), sep);
        assert((a + seq![sep]).drop_last() =~= a);
        assert((a + seq![sep]).last() == sep);
        assert(pieces(a + seq![sep], sep) == front.push(seq![]));
        assert(front.push(seq![]).update(front.len() as int, Seq::<char>::empty() + parts.last())
            =~= parts);
    }
}

/// Splits `s` at every `sep` (`str::split`).
pub fn split_on(s: &str, sep: char) -> (r: Vec<String>)
    ensures
        r@.map_values(|p: String| p@) == pieces(s@, sep),
{
    let chars = chars_of(s);
    let mut done: Vec<String> = Vec::new();
    let mut cur = String::new();
    let mut i: usize = 0;
    assert(s@.take(0) =~= Seq::<char>::empty());
    assert(done@.map_values(|p: String| p@).push(cur@) =~= seq![Seq::<char>::empty()]);
    while i < chars.len()
        invariant
            i <= chars@.len(),
            chars@ == s@,
            pieces(s@.take(i as int), sep) == done@.map_values(|p: String| p@).push(cur@),
        decreases chars@.len() - i,
    {
        let c = chars[i];
        assert(s@.take(i + 1).drop_last() =~= s@.take(i as int));
        assert(s@.take(i + 1).last() == c);
        let ghost before = done@.map_values(|p: String| p@);
        if c == sep {
            let finished = cur;
            done.push(finished);
            cur = String::new();
            assert(done@.map_values(|p: String| p@) =~= before.push(finished@));
            assert(done@.map_values(|p: String| p@).push(cur@) =~= before.push(finished@).push(
                seq![],
            ));
        } else {
            let ghost old_cur = cur@;
            push_char(&mut cur, c);
            assert(before.push(cur@) =~= before.push(old_cur).update(before.len() as int, old_cur.push(c)));
        }
        i = i + 1;
    }
    let last = cur;
    let ghost before = done@.map_values(|p: String| p@);
    done.push(last);
    assert(done@.map_values(|p: String| p@) =~= before.push(last@));
    assert(s@.take(chars@.len() as int) =~= s@);
    done
}

/// The component id of a handler's button: its name and the arguments, joined with
/// `:`.
pub fn button_id(name: &str, args: &Vec<String>) -> (r: String)
    ensures
        r@ == joined(seq![name@] + args@.map_values(|a: String| a@), seq![':']),
{
    let ghost parts = seq![name@] + args@.map_values(|a: String| a@);
    let mut r = String::new();
    push_str(&mut r, name);
    assert(parts.take(1) =~= seq![name@]);
    let mut i: usize = 0;
    while i < args.len()
        invariant
            i <= args@.len(),
            parts == seq![name@] + args@.map_values(|a: String| a@),
            r@ == joined(parts.take(i + 1), seq![':']),
        decreases args@.len() - i,
    {
        push_char(&mut r, ':');
        push_str(&mut r, args[i].as_str());
        assert(parts.take(i + 2).drop_last() =~= parts.take(i + 1));
        assert(parts[i + 1] == args@[i as int]@);
        i = i + 1;
    }
    assert(parts.take(args@.len() + 1int) =~= parts);
    r
}

/// Where a pressed component goes: the handler named by the first piece of its id,
/// with the remaining pieces as arguments.
pub fn route_component(custom_id: &str) -> (r: (String, Vec<String>))
    ensures
        r.0@ == pieces(custom_id@, ':')[0],
        r.1@.map_values(|a: String| a@) == pieces(custom_id@, ':').drop_first(),
{
    let mut all = split_on(custom_id, ':');
    proof {
        lemma_pieces_shape(custom_id@, ':');
    }
    let ghost views = all@.map_values(|p: String| p@);
    let name = all.remove(0);
    assert(all@.map_values(|a: String| a@) =~= views.drop_first());
    (name, all)
}

/// A button id made by [`button_id`] is routed back to its handler with its
/// arguments, when neither the name nor an argument holds a `:`.
pub proof fn lemma_route_button(name: Seq<char>, args: Seq<Seq<char>>)
    requires
        free_of(name, ':'),
        forall|i: int| 0 <= i < args.len() ==> free_of(#[trigger] args[i], ':'),
    ensures
        pieces(joined(seq![name] + args, seq![':']), ':')[0] == name,
        pieces(joined(seq![name] + args, seq![':']), ':').drop_first() == args,
{
    let parts = seq![name] + args;
    assert forall|i: int| 0 <= i < parts.len() implies free_of(#[trigger] parts[i], ':') by {
        if i > 0 {
            assert(parts[i] == args[i - 1]);
        }
    }
    lemma_join_pieces(parts, ':');
    assert(parts.drop_first() =~= args);
}

} // verus!
