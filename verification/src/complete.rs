//! Completing the word under the cursor.

use vstd::prelude::*;
use crate::text::chars_of;
use crate::parser::strings_view;

verus! {

broadcast use vstd::string::group_string_axioms;

/// The names of `names` that start with `prefix`, in their order.
pub open spec fn names_starting_with(names: Seq<Seq<char>>, prefix: Seq<char>) -> Seq<Seq<char>>
    decreases names.len(),
{
    if names.len() == 0 {
        Seq::empty()
    } else if prefix.is_prefix_of(names.last()) {
        names_starting_with(names.drop_last(), prefix).push(names.last())
    } else {
        names_starting_with(names.drop_last(), prefix)
    }
}

/// Whether `p` is a prefix of `s`.
fn has_prefix(s: &str, p: &Vec<char>) -> (b: bool)
    ensures
        b == p@.is_prefix_of(s@),
{
    let cs = chars_of(s);
    if p.len() > cs.len() {
        return false;
    }
    let mut i: usize = 0;
    while i < p.len()
        invariant
            i <= p.len() <= cs.len(),
            cs@ == s@,
            forall|k: int| 0 <= k < i ==> p@[k] == cs@[k],
        decreases p.len() - i,
    {
        if p[i] != cs[i] {
            return false;
        }
        i = i + 1;
    }
    assert(p@ == cs@.take(p.len() as int));
    true
}

/// The completions of `prefix` among `names`: those that start with it, in
/// the order given.
pub fn completions(prefix: &str, names: &Vec<String>) -> (found: Vec<String>)
    ensures
        strings_view(found@) == names_starting_with(strings_view(names@), prefix@),
{
    let p = chars_of(prefix);
    let ghost all = strings_view(names@);
    let mut found: Vec<String> = Vec::new();
    let mut i: usize = 0;
    while i < names.len()
        invariant
            i <= names.len(),
            p@ == prefix@,
            all == strings_view(names@),
            strings_view(found@) == names_starting_with(all.take(i as int), prefix@),
        decreases names.len() - i,
    {
        let ghost before = strings_view(found@);
        assert(all.take(i + 1).drop_last() == all.take(i as int));
        assert(all.take(i + 1).last() == names@[i as int]@);
        if has_prefix(names[i].as_str(), &p) {
            let n = names[i].clone();
            found.push(n);
            assert(strings_view(found@) == before.push(n@));
        }
        i = i + 1;
    }
    assert(all.take(names.len() as int) == all);
    found
}

/// The completions of `prefix` are exactly the names that begin with the
/// whole of `prefix` (as many characters as it has, each the same), kept in
/// the order of `names`: no name that does not begin so is offered, and none
/// that does is left out.
pub proof fn law_completions_match_whole_prefix(names: Seq<Seq<char>>, prefix: Seq<char>)
    ensures
        names_starting_with(names, prefix) == names.filter(
            |n: Seq<char>| n.len() >= prefix.len() && n.take(prefix.len() as int) == prefix,
        ),
        forall|k: int|
            0 <= k < names_starting_with(names, prefix).len() ==> {
                let n = #[trigger] names_starting_with(names, prefix)[k];
                &&& n.len() >= prefix.len()
                &&& forall|j: int| 0 <= j < prefix.len() ==> n[j] == prefix[j]
            },
    decreases names.len(),
{
    let pred = |n: Seq<char>| n.len() >= prefix.len() && n.take(prefix.len() as int) == prefix;
    reveal_with_fuel(Seq::<Seq<char>>::filter, 1);
    if names.len() > 0 {
        law_completions_match_whole_prefix(names.drop_last(), prefix);
        let n = names.last();
        assert(prefix.is_prefix_of(n) <==> pred(n)) by {
            if n.len() >= prefix.len() {
                assert(prefix.is_prefix_of(n) <==> n.take(prefix.len() as int) =~= prefix);
            }
        }
    }
    let r = names_starting_with(names, prefix);
    assert forall|k: int| 0 <= k < r.len() implies ({
        let n = #[trigger] r[k];
        &&& n.len() >= prefix.len()
        &&& forall|j: int| 0 <= j < prefix.len() ==> n[j] == prefix[j]
    }) by {
        names.lemma_filter_pred(pred, k);
        assert(pred(r[k]));
        let n = r[k];
        assert forall|j: int| 0 <= j < prefix.len() implies n[j] == prefix[j] by {
            assert(n.take(prefix.len() as int)[j] == n[j]);
        }
    }
}

} // verus!
