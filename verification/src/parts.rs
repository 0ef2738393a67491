//! How a path falls into components, and what becomes of them as paths are extended, cut
//! short and taken apart.
use crate::confine::lemma_split_leads_back;
use crate::path::{
    cur_dir, is_absolute, is_component_list, is_plain, is_under, 
    lemma_components_of_join, lemma_components_of_root, lemma_components_shape,
    lemma_push_component, lemma_trailing_separator, path_components, path_join,
    path_pop, path_push, path_rest, root_dir,
};
use vstd::prelude::*;

verus! {

/// The empty path has no component, `/` has itself as its only one, and a text without a
/// separator is its own only component, `.` and `..` too.
pub proof fn law_components_of_short_paths(c: Seq<char>)
    requires
        is_plain(c),
    ensures
        path_components(seq![]) == Seq::<Seq<char>>::empty(),
        path_components(seq!['/']) == seq![seq!['/']],
        path_components(c) == seq![c],
{
    let none = Seq::<Seq<char>>::empty();
    assert(path_components(seq![]) == none) by {
        lemma_components_of_join(none);
        assert(path_join(none) == Seq::<char>::empty());
        assert(Seq::<char>::empty() =~= seq![]);
    }
    assert(path_components(seq!['/']) == seq![seq!['/']]) by {
        lemma_components_of_root();
    }
    assert(path_components(c) == seq![c]) by {
        lemma_push_component(seq![], c);
        assert(path_push(seq![], c) =~= c);
        assert(none.push(c) =~= seq![c]);
    }
}

/// Behind a path and a separator, a text without a separator is one more component, `..`
/// too; only `.` and nothing at all add none. Together with how short paths fall into
/// components, this says what the components of every path are.
pub proof fn law_components_go_on(p: Seq<char>, c: Seq<char>)
    requires
        p.len() > 0,
        is_plain(c),
    ensures
        c != cur_dir() ==> path_components(p + seq!['/'] + c) == path_components(p).push(c),
        path_components(p + seq!['/'] + cur_dir()) == path_components(p),
        path_components(p + seq!['/']) == path_components(p),
{
    let q = p.push('/');
    assert(p + seq!['/'] =~= q);
    assert(is_plain(cur_dir()));
    lemma_push_component(p, c);
    lemma_push_component(p, cur_dir());
    lemma_push_component(q, c);
    lemma_push_component(q, cur_dir());
    lemma_trailing_separator(p);
    assert(path_push(q, c) =~= q + c);
    assert(path_push(q, cur_dir()) =~= q + cur_dir());
    if p.last() != '/' {
        assert(path_push(p, cur_dir()) =~= q + cur_dir());
    }
}

/// Where a path is absolute, the root is its first component, and there alone; a `.` counts
/// only as the first component, and no component but the root holds a separator.
pub proof fn law_shape_of_components(p: Seq<char>, i: int)
    requires
        0 <= i < path_components(p).len(),
    ensures
        (path_components(p)[0] == root_dir()) == is_absolute(p),
        path_components(p)[i] == root_dir() ==> i == 0,
        path_components(p)[i] == cur_dir() ==> i == 0,
        path_components(p)[i] != root_dir() ==> is_plain(path_components(p)[i]),
{
    lemma_components_shape(p);
    assert(is_component_list(path_components(p)));
    assert(is_plain(cur_dir()));
    assert(root_dir()[0] == '/');
    let c = path_components(p)[i];
}

/// Pushing an absolute path puts it in the other's place; pushing onto nothing gives what
/// is pushed; and any other push writes what is pushed behind the path, with one separator
/// between them, of which the path may have brought its own.
pub proof fn law_what_a_push_writes(p: Seq<char>, q: Seq<char>)
    ensures
        is_absolute(q) ==> path_push(p, q) == q,
        path_push(seq![], q) == q,
        !is_absolute(q) && p.len() > 0 ==> {
            &&& p.is_prefix_of(path_push(p, q))
            &&& q.is_suffix_of(path_push(p, q))
            &&& p.last() == '/' ==> path_push(p, q).len() == p.len() + q.len()
            &&& p.last() != '/' ==> path_push(p, q).len() == p.len() + 1 + q.len() && path_push(
                p,
                q,
            )[p.len() as int] == '/'
        },
{
    assert(path_push(seq![], q) =~= q);
    if !is_absolute(q) && p.len() > 0 {
        let out = path_push(p, q);
        assert(p =~= out.take(p.len() as int));
        assert(q =~= out.skip(out.len() - q.len()));
        assert(q =~= out.subrange(out.len() - q.len(), out.len() as int));
    }
}

/// Cutting a path short takes off its last component and nothing else; the root cannot be
/// cut, nor can a path without components.
pub proof fn law_pop_takes_one_off(p: Seq<char>)
    ensures
        path_components(p).len() > 0 && path_components(p).last() != root_dir()
            ==> path_components(path_pop(p)) == path_components(p).drop_last(),
        path_components(p).len() == 0 || path_components(p).last() == root_dir() ==> path_pop(p)
            == p,
{
    lemma_components_shape(p);
    let cs = path_components(p);
    if cs.len() > 0 && cs.last() != root_dir() {
        let front = cs.drop_last();
        assert forall|i: int| #![trigger front[i]] 0 <= i < front.len() implies front[i]
            == cs[i] by {}
        assert(is_component_list(front));
        lemma_components_of_join(front);
    }
}

/// A name that was pushed onto a path is taken off again by cutting the path short.
pub proof fn law_pop_undoes_push(p: Seq<char>, name: Seq<char>)
    requires
        is_plain(name),
        name != cur_dir(),
    ensures
        path_components(path_pop(path_push(p, name))) == path_components(p),
{
    lemma_push_component(p, name);
    law_pop_takes_one_off(path_push(p, name));
    assert(name != root_dir()) by {
        assert(root_dir()[0] == '/');
    }
    assert(path_components(p).push(name).drop_last() =~= path_components(p));
}

/// Whatever is written below a path lies below it; a path lies below itself, below what its
/// base lies below, and two paths that lie below each other have the same components.
pub proof fn law_lying_below(p: Seq<char>, q: Seq<char>, base: Seq<char>, name: Seq<char>)
    requires
        is_plain(name),
        name != cur_dir(),
    ensures
        is_under(p, p),
        is_under(path_push(p, name), p),
        !is_under(p, path_push(p, name)),
        is_under(p, q) && is_under(q, base) ==> is_under(p, base),
        is_under(p, q) && is_under(q, p) ==> path_components(p) == path_components(q),
        is_under(p, base) ==> path_components(base).len() <= path_components(p).len(),
        is_under(p, base) ==> forall|i: int|
            0 <= i < path_components(base).len() ==> #[trigger] path_components(base)[i]
                == path_components(p)[i],
{
    lemma_push_component(p, name);
    let cs = path_components(p);
    assert(cs =~= cs.push(name).take(cs.len() as int));
    assert(cs =~= cs.take(cs.len() as int));
    if is_under(p, q) && is_under(q, base) {
        assert(path_components(base) =~= cs.take(path_components(base).len() as int));
    }
    if is_under(p, q) && is_under(q, p) {
        assert(cs =~= path_components(q));
    }
}

/// What is left of a path once a base is taken off has the components that the base has not,
/// in order; pushed onto the base it leads back to the whole path; and of a name that was
/// pushed onto the base, the name is left.
pub proof fn law_what_is_left(p: Seq<char>, base: Seq<char>, name: Seq<char>)
    requires
        is_under(p, base),
        is_plain(name),
        name != cur_dir(),
    ensures
        path_components(base) + path_components(path_rest(p, base)) == path_components(p),
        path_components(path_push(base, path_rest(p, base))) == path_components(p),
        path_rest(path_push(base, name), base) == name,
        path_rest(base, base).len() == 0,
{
    lemma_split_leads_back(base, p);
    lemma_components_shape(p);
    let cs = path_components(p);
    let n = path_components(base).len() as int;
    let left = cs.skip(n);
    assert forall|i: int| #![trigger left[i]] 0 <= i < left.len() implies left[i] == cs[i
        + n] by {}
    assert(is_component_list(left));
    lemma_components_of_join(left);
    assert(path_components(base) + left =~= cs);
    lemma_push_component(base, name);
    let one = path_components(base).push(name).skip(n);
    assert(one =~= seq![name]);
    assert(one.drop_last() =~= Seq::empty());
    assert(path_join(one.drop_last()) =~= Seq::empty());
    assert(path_join(one) == path_push(path_join(one.drop_last()), one.last()));
    assert(Seq::<char>::empty() + name =~= name);
    assert(path_components(base).skip(n) =~= Seq::empty());
}

/// Components that are pushed one after the other make a path of those components.
pub proof fn law_join_makes_its_components(cs: Seq<Seq<char>>)
    requires
        is_component_list(cs),
    ensures
        path_components(path_join(cs)) == cs,
        cs.len() == 0 <==> path_join(cs).len() == 0,
{
    lemma_components_of_join(cs);
}

} // verus!
