//! Paths as text: how a path falls into components, how a path is extended and
//! how a prefix is taken off. The rules are those of Unix paths.
use vstd::prelude::*;
use vstd::string::*;

verus! {

/// The component that stands for the root, `/`.
pub open spec fn root_dir() -> Seq<char> {
    seq!['/']
}

/// The component that stands for the current directory, `.`.
pub open spec fn cur_dir() -> Seq<char> {
    seq!['.']
}

/// The component that stands for the parent directory, `..`.
pub open spec fn parent_dir() -> Seq<char> {
    seq!['.', '.']
}

/// A component that stands for a directory by where it is: `.` or `..`.
pub open spec fn is_dots(component: Seq<char>) -> bool {
    component == cur_dir() || component == parent_dir()
}

/// The path starts at the root.
pub open spec fn is_absolute(p: Seq<char>) -> bool {
    p.len() > 0 && p[0] == '/'
}

/// The path read up to some point: the pieces that a `/` has closed, and the
/// piece that is still open.
pub open spec fn scan(p: Seq<char>) -> (Seq<Seq<char>>, Seq<char>)
    decreases p.len(),
{
    if p.len() == 0 {
        (Seq::empty(), Seq::empty())
    } else {
        let (closed, open) = scan(p.drop_last());
        if p.last() == '/' {
            (closed.push(open), Seq::empty())
        } else {
            (closed, open.push(p.last()))
        }
    }
}

/// What stands between the separators of a path, empty pieces too.
pub open spec fn pieces(p: Seq<char>) -> Seq<Seq<char>> {
    scan(p).0.push(scan(p).1)
}

/// A piece that counts wherever it stands: neither empty nor `.`.
pub open spec fn is_named(piece: Seq<char>) -> bool {
    piece.len() > 0 && piece != cur_dir()
}

/// The components that pieces make: the root where the path is absolute, a `.`
/// only where it comes first, and every named piece.
pub open spec fn collect(absolute: bool, ps: Seq<Seq<char>>) -> Seq<Seq<char>> {
    (if absolute {
        seq![root_dir()]
    } else {
        seq![]
    }) + (if ps.len() > 0 && ps[0] == cur_dir() {
        seq![cur_dir()]
    } else {
        seq![]
    }) + ps.filter(|s: Seq<char>| is_named(s))
}

/// The components of a path.
pub open spec fn path_components(p: Seq<char>) -> Seq<Seq<char>> {
    collect(is_absolute(p), pieces(p))
}

/// The texts of some strings.
pub open spec fn texts(v: Seq<String>) -> Seq<Seq<char>> {
    v.map_values(|s: String| s@)
}

proof fn lemma_collect_push(absolute: bool, ps: Seq<Seq<char>>, piece: Seq<char>)
    ensures
        collect(absolute, ps.push(piece)) == if is_named(piece) || (ps.len() == 0 && piece
            == cur_dir()) {
            collect(absolute, ps).push(piece)
        } else {
            collect(absolute, ps)
        },
{
    reveal(Seq::filter);
    let f = |s: Seq<char>| is_named(s);
    assert(ps.push(piece).drop_last() =~= ps);
    assert(ps.push(piece).filter(f) == if is_named(piece) {
        ps.filter(f).push(piece)
    } else {
        ps.filter(f)
    });
    if ps.len() == 0 {
        assert(ps.filter(f) =~= Seq::empty());
    }
    assert(collect(absolute, ps.push(piece)) =~= if is_named(piece) || (ps.len() == 0 && piece
        == cur_dir()) {
        collect(absolute, ps).push(piece)
    } else {
        collect(absolute, ps)
    });
}

/// Whether the text is `.`.
pub fn is_cur_dir(s: &str) -> (r: bool)
    ensures
        r == (s@ == cur_dir()),
{
    let r = s.unicode_len() == 1 && s.get_char(0) == '.';
    assert(r ==> s@ =~= cur_dir());
    r
}

/// Whether the text is `..`.
pub fn is_parent_dir(s: &str) -> (r: bool)
    ensures
        r == (s@ == parent_dir()),
{
    let r = s.unicode_len() == 2 && s.get_char(0) == '.' && s.get_char(1) == '.';
    assert(r ==> s@ =~= parent_dir());
    r
}

/// The components of a path, as text.
pub fn components(path: &str) -> (out: Vec<String>)
    ensures
        texts(out@) == path_components(path@),
{
    let n: usize = path.unicode_len();
    let mut out: Vec<String> = Vec::new();
    let absolute = n > 0 && path.get_char(0) == '/';
    if absolute {
        proof {
            reveal_strlit("/");
        }
        out.push("/".to_owned());
        assert(out@[0]@ =~= root_dir());
    }
    let mut start: usize = 0;
    let mut i: usize = 0;
    assert(texts(out@) =~= collect(absolute, Seq::empty())) by {
        reveal(Seq::filter);
        assert(Seq::<Seq<char>>::empty().filter(|s: Seq<char>| is_named(s)) =~= Seq::empty());
    }
    assert(path@.take(0) =~= Seq::empty());
    assert(path@.subrange(0, 0) =~= Seq::empty());
    while i < n
        invariant
            n == path@.len(),
            start <= i <= n,
            absolute == is_absolute(path@),
            (start == 0) == (scan(path@.take(i as int)).0.len() == 0),
            scan(path@.take(i as int)).1 == path@.subrange(start as int, i as int),
            texts(out@) == collect(absolute, scan(path@.take(i as int)).0),
        decreases n - i,
    {
        let ghost before = scan(path@.take(i as int));
        assert(path@.take(i + 1).drop_last() =~= path@.take(i as int));
        assert(path@.take(i + 1).last() == path@[i as int]);
        if path.get_char(i) == '/' {
            let piece = path.substring_char(start, i);
            proof {
                lemma_collect_push(absolute, before.0, piece@);
            }
            if !piece.is_empty() && (start == 0 || !is_cur_dir(piece)) {
                let ghost was = out@;
                out.push(piece.to_owned());
                assert(texts(out@) =~= texts(was).push(piece@));
            }
            start = i + 1;
            assert(path@.subrange(i + 1, i + 1) =~= Seq::empty());
        } else {
            assert(path@.subrange(start as int, i + 1) =~= path@.subrange(
                start as int,
                i as int,
            ).push(path@[i as int]));
        }
        i = i + 1;
    }
    assert(path@.take(n as int) =~= path@);
    let piece = path.substring_char(start, n);
    proof {
        lemma_collect_push(absolute, scan(path@).0, piece@);
    }
    if !piece.is_empty() && (start == 0 || !is_cur_dir(piece)) {
        let ghost was = out@;
        out.push(piece.to_owned());
        assert(texts(out@) =~= texts(was).push(piece@));
    }
    out
}

/// A path extended by another: an absolute one takes its place, any other is
/// written behind it, with a separator where one is needed.
pub open spec fn path_push(p: Seq<char>, tail: Seq<char>) -> Seq<char> {
    if is_absolute(tail) {
        tail
    } else if p.len() == 0 || p.last() == '/' {
        p + tail
    } else {
        p.push('/') + tail
    }
}

/// The path that components make when they are pushed one after the other.
pub open spec fn path_join(cs: Seq<Seq<char>>) -> Seq<char>
    decreases cs.len(),
{
    if cs.len() == 0 {
        Seq::empty()
    } else {
        path_push(path_join(cs.drop_last()), cs.last())
    }
}

/// The path without its last component. A path that ends in the root, or that
/// has no component at all, is left as it is.
pub open spec fn path_pop(p: Seq<char>) -> Seq<char> {
    let cs = path_components(p);
    if cs.len() == 0 || cs.last() == root_dir() {
        p
    } else {
        path_join(cs.drop_last())
    }
}

/// The path lies at or below the base, component by component.
pub open spec fn is_under(p: Seq<char>, base: Seq<char>) -> bool {
    path_components(base).is_prefix_of(path_components(p))
}

/// What is left of a path once the components of a base are taken off.
pub open spec fn path_rest(p: Seq<char>, base: Seq<char>) -> Seq<char> {
    path_join(path_components(p).skip(path_components(base).len() as int))
}

/// Whether a path is absolute.
pub fn has_root(path: &str) -> (r: bool)
    ensures
        r == is_absolute(path@),
{
    path.unicode_len() > 0 && path.get_char(0) == '/'
}

/// Extends a path by another.
pub fn push(path: &str, tail: &str) -> (out: String)
    ensures
        out@ == path_push(path@, tail@),
{
    if has_root(tail) {
        tail.to_owned()
    } else {
        let mut out: String = path.to_owned();
        let n: usize = path.unicode_len();
        if n > 0 && path.get_char(n - 1) != '/' {
            proof {
                reveal_strlit("/");
            }
            out.append("/");
            assert(out@ =~= path@.push('/'));
        }
        out.append(tail);
        out
    }
}

/// Joins a range of components into a path.
pub fn join(cs: &Vec<String>, from: usize, to: usize) -> (out: String)
    requires
        from <= to <= cs.len(),
    ensures
        out@ == path_join(texts(cs@).subrange(from as int, to as int)),
{
    let mut out: String = String::new();
    let mut i: usize = from;
    assert(texts(cs@).subrange(from as int, from as int) =~= Seq::empty());
    while i < to
        invariant
            from <= i <= to <= cs.len(),
            out@ == path_join(texts(cs@).subrange(from as int, i as int)),
        decreases to - i,
    {
        out = push(out.as_str(), cs[i].as_str());
        assert(texts(cs@).subrange(from as int, i + 1).drop_last() =~= texts(cs@).subrange(
            from as int,
            i as int,
        ));
        i = i + 1;
    }
    out
}

/// The path without its last component.
pub fn pop(path: &str) -> (out: String)
    ensures
        out@ == path_pop(path@),
{
    let cs = components(path);
    let n: usize = cs.len();
    if n == 0 || has_root(cs[n - 1].as_str()) {
        proof {
            lemma_components_shape(path@);
        }
        path.to_owned()
    } else {
        assert(texts(cs@).subrange(0, n - 1) =~= texts(cs@).drop_last());
        join(&cs, 0, n - 1)
    }
}

/// Whether two texts are the same.
pub fn same_text(a: &str, b: &str) -> (r: bool)
    ensures
        r == (a@ == b@),
{
    a.to_owned() == b.to_owned()
}

/// Takes a base off a path, where the path lies at or below it.
pub fn strip_prefix(path: &str, base: &str) -> (rest: Option<String>)
    ensures
        match rest {
            Some(r) => is_under(path@, base@) && r@ == path_rest(path@, base@),
            None => !is_under(path@, base@),
        },
{
    let cs = components(path);
    let bs = components(base);
    if bs.len() > cs.len() {
        return None;
    }
    let n: usize = bs.len();
    let mut i: usize = 0;
    while i < n
        invariant
            n == bs.len(),
            i <= n <= cs.len(),
            texts(cs@) == path_components(path@),
            texts(bs@) == path_components(base@),
            forall|j: int| 0 <= j < i ==> cs@[j]@ == bs@[j]@,
        decreases n - i,
    {
        if !same_text(cs[i].as_str(), bs[i].as_str()) {
            assert(texts(cs@)[i as int] != texts(bs@)[i as int]);
            return None;
        }
        i = i + 1;
    }
    assert(texts(bs@) =~= texts(cs@).take(n as int));
    assert(texts(cs@).subrange(n as int, cs@.len() as int) =~= texts(cs@).skip(n as int));
    Some(join(&cs, n, cs.len()))
}

/// A component that is not the root: it has a character and no separator.
pub open spec fn is_plain(c: Seq<char>) -> bool {
    c.len() > 0 && forall|i: int| 0 <= i < c.len() ==> c[i] != '/'
}

/// What a list of components looks like: the root and `.` come first or not at
/// all, and everything else is plain and named.
pub open spec fn is_component_list(cs: Seq<Seq<char>>) -> bool {
    forall|i: int|
        #![trigger cs[i]]
        0 <= i < cs.len() ==> {
            ||| i == 0 && cs[i] == root_dir()
            ||| i == 0 && cs[i] == cur_dir()
            ||| is_plain(cs[i]) && cs[i] != cur_dir()
        }
}

/// No open or closed piece holds a separator.
proof fn lemma_scan_shape(p: Seq<char>)
    ensures
        forall|i: int, j: int|
            0 <= i < scan(p).0.len() && 0 <= j < scan(p).0[i].len() ==> #[trigger] scan(
                p,
            ).0[i][j] != '/',
        forall|j: int| 0 <= j < scan(p).1.len() ==> #[trigger] scan(p).1[j] != '/',
        scan(p).0.len() > 0 ==> (scan(p).0[0].len() == 0 <==> is_absolute(p)),
        scan(p).0.len() == 0 ==> scan(p).1 == p,
    decreases p.len(),
{
    if p.len() > 0 {
        lemma_scan_shape(p.drop_last());
        let (closed, open) = scan(p.drop_last());
        if p.last() == '/' {
            if closed.len() == 0 {
                assert(scan(p).0[0] == p.drop_last());
                if p.len() > 1 {
                    assert(scan(p.drop_last()).1[0] == p[0]);
                }
            } else {
                assert(scan(p).0[0] == closed[0]);
                assert(p.drop_last().len() > 0) by {
                    if p.drop_last().len() == 0 {
                        assert(closed.len() == 0);
                    }
                }
            }
        } else {
            assert(open.push(p.last()) =~= scan(p).1);
            if closed.len() == 0 {
                assert(scan(p).1 =~= p);
            } else {
                assert(p.drop_last().len() > 0);
            }
        }
    }
}

/// The components of every path are a list of components, and the root is among
/// them where the path is absolute.
pub proof fn lemma_components_shape(p: Seq<char>)
    ensures
        is_component_list(path_components(p)),
        (path_components(p).len() > 0 && path_components(p)[0] == root_dir()) == is_absolute(p),
{
    lemma_scan_shape(p);
    let f = |s: Seq<char>| is_named(s);
    let ps = pieces(p);
    let kept = ps.filter(f);
    assert forall|i: int| 0 <= i < kept.len() implies is_plain(#[trigger] kept[i]) && kept[i]
        != cur_dir() by {
        ps.lemma_filter_pred(f, i);
        ps.lemma_filter_contains_rev(f, kept[i]);
        let k = choose|k: int| 0 <= k < ps.len() && ps[k] == kept[i];
        if k < scan(p).0.len() {
            assert(ps[k] == scan(p).0[k]);
        } else {
            assert(ps[k] == scan(p).1);
        }
    }
    assert(is_absolute(p) ==> ps[0].len() == 0) by {
        if is_absolute(p) && scan(p).0.len() == 0 {
            assert(scan(p).1[0] == '/');
        }
    }
    if !is_absolute(p) && path_components(p).len() > 0 {
        let c = path_components(p)[0];
        assert(c == cur_dir() || c == kept[0]);
        assert(cur_dir()[0] != root_dir()[0]);
        assert(c[0] != '/');
    }
}

/// Text without a separator goes on with the open piece.
proof fn lemma_scan_append(p: Seq<char>, c: Seq<char>)
    requires
        forall|i: int| 0 <= i < c.len() ==> c[i] != '/',
    ensures
        scan(p + c) == (scan(p).0, scan(p).1 + c),
    decreases c.len(),
{
    if c.len() == 0 {
        assert(p + c =~= p);
        assert(scan(p).1 + c =~= scan(p).1);
    } else {
        lemma_scan_append(p, c.drop_last());
        assert((p + c).drop_last() =~= p + c.drop_last());
        assert((p + c).last() == c.last());
        assert(scan(p).1 + c =~= (scan(p).1 + c.drop_last()).push(c.last()));
    }
}

/// A plain component is written behind the components of a path; a `.` counts
/// only where it comes first.
pub proof fn lemma_push_component(p: Seq<char>, c: Seq<char>)
    requires
        is_plain(c),
    ensures
        path_components(path_push(p, c)) == if c == cur_dir() && p.len() > 0 {
            path_components(p)
        } else {
            path_components(p).push(c)
        },
{
    lemma_scan_shape(p);
    let closed = scan(p).0;
    let open = scan(p).1;
    let abs = is_absolute(p);
    if p.len() == 0 {
        assert(p + c =~= c);
        lemma_scan_append(p, c);
        assert(pieces(c) =~= seq![c]);
        assert(pieces(p) =~= Seq::<Seq<char>>::empty().push(Seq::empty()));
        assert(Seq::<char>::empty() + c =~= c);
        lemma_collect_push(abs, Seq::empty(), Seq::empty());
        lemma_collect_push(abs, Seq::empty(), c);
        assert(Seq::<Seq<char>>::empty().push(c) =~= seq![c]);
    } else if p.last() == '/' {
        lemma_scan_append(p, c);
        assert(open =~= Seq::empty());
        assert(open + c =~= c);
        lemma_collect_push(abs, closed, open);
        lemma_collect_push(abs, closed, c);
    } else {
        let q = p.push('/');
        assert(q.drop_last() =~= p);
        assert(scan(q) == (pieces(p), Seq::<char>::empty()));
        lemma_scan_append(q, c);
        assert(Seq::<char>::empty() + c =~= c);
        lemma_collect_push(abs, pieces(p), c);
    }
}

/// Components that are joined into a path are the components of that path.
pub proof fn lemma_components_of_join(cs: Seq<Seq<char>>)
    requires
        is_component_list(cs),
    ensures
        path_components(path_join(cs)) == cs,
        cs.len() > 0 ==> path_join(cs).len() > 0,
    decreases cs.len(),
{
    if cs.len() == 0 {
        let none = Seq::<Seq<char>>::empty();
        lemma_collect_push(false, none, Seq::empty());
        assert(pieces(Seq::<char>::empty()) =~= none.push(Seq::empty()));
        assert(none.filter(|s: Seq<char>| is_named(s)) =~= none) by {
            reveal(Seq::filter);
        }
        assert(path_components(path_join(cs)) =~= cs);
    } else {
        let front = cs.drop_last();
        assert forall|i: int|
            #![trigger front[i]]
            0 <= i < front.len() implies front[i] == cs[i] by {
        }
        assert(is_component_list(front));
        lemma_components_of_join(front);
        let c = cs.last();
        assert(c == cs[cs.len() - 1]);
        if c == root_dir() {
            assert(c[0] == '/');
            assert(cs.len() == 1);
            lemma_components_of_root();
            assert(cs =~= seq![root_dir()]);
        } else {
            lemma_push_component(path_join(front), c);
            assert(cs =~= front.push(c));
        }
    }
}

/// The root is its own only component.
pub proof fn lemma_components_of_root()
    ensures
        path_components(root_dir()) == seq![root_dir()],
{
    let none = Seq::<Seq<char>>::empty();
    assert(root_dir().drop_last() =~= Seq::empty());
    assert(scan(Seq::<char>::empty()) == (none, Seq::<char>::empty()));
    assert(root_dir().last() == '/');
    assert(scan(root_dir()) == (none.push(Seq::empty()), Seq::<char>::empty()));
    lemma_collect_push(true, none, Seq::empty());
    lemma_collect_push(true, none.push(Seq::empty()), Seq::empty());
    assert(none.filter(|s: Seq<char>| is_named(s)) =~= none) by {
        reveal(Seq::filter);
    }
    assert(collect(true, none) =~= seq![root_dir()]);
}

/// A separator at the end of a path adds no component.
pub proof fn lemma_trailing_separator(p: Seq<char>)
    requires
        p.len() > 0,
    ensures
        path_components(p.push('/')) == path_components(p),
{
    let q = p.push('/');
    assert(q.drop_last() =~= p);
    assert(scan(q) == (pieces(p), Seq::<char>::empty()));
    lemma_collect_push(is_absolute(p), pieces(p), Seq::empty());
}

/// Names that are pushed as one path are pushed one after the other.
pub proof fn lemma_push_join(base: Seq<char>, names: Seq<Seq<char>>)
    requires
        forall|i: int|
            #![trigger names[i]]
            0 <= i < names.len() ==> is_plain(names[i]) && names[i] != cur_dir(),
    ensures
        path_components(path_push(base, path_join(names))) == path_components(base) + names,
        !is_absolute(path_join(names)),
    decreases names.len(),
{
    if names.len() == 0 {
        if base.len() == 0 || base.last() == '/' {
            assert(base + Seq::<char>::empty() =~= base);
        } else {
            lemma_trailing_separator(base);
            assert(base.push('/') + Seq::<char>::empty() =~= base.push('/'));
        }
        assert(path_components(base) + names =~= path_components(base));
    } else {
        let front = names.drop_last();
        let c = names.last();
        assert(c == names[names.len() - 1]);
        assert forall|i: int| #![trigger front[i]] 0 <= i < front.len() implies is_plain(front[i])
            && front[i] != cur_dir() by {
            assert(front[i] == names[i]);
        }
        lemma_push_join(base, front);
        let t = path_join(front);
        assert(path_push(base, path_push(t, c)) =~= path_push(path_push(base, t), c));
        lemma_push_component(path_push(base, t), c);
        assert(path_components(base) + names =~= (path_components(base) + front).push(c));
    }
}

/// Only the empty path has no components.
pub proof fn lemma_no_components(p: Seq<char>)
    requires
        path_components(p).len() == 0,
    ensures
        p.len() == 0,
{
    if p.len() > 0 {
        let ps = pieces(p);
        lemma_scan_shape(p);
        assert(!is_absolute(p));
        assert(ps[0].len() > 0) by {
            if scan(p).0.len() > 0 {
                assert(ps[0] == scan(p).0[0]);
            } else {
                assert(ps[0] == scan(p).1);
            }
        }
        if ps[0] != cur_dir() {
            let f = |s: Seq<char>| is_named(s);
            ps.lemma_filter_contains(f, 0);
            assert(ps.filter(f).contains(ps[0]));
        }
    }
}

/// The pieces of a path that count wherever they stand.
pub open spec fn named_pieces(p: Seq<char>) -> Seq<Seq<char>> {
    pieces(p).filter(|s: Seq<char>| is_named(s))
}

/// What is read behind a separator is read as a path of its own.
proof fn lemma_scan_behind(p: Seq<char>, q: Seq<char>)
    ensures
        scan(p.push('/') + q) == (pieces(p) + scan(q).0, scan(q).1),
    decreases q.len(),
{
    let a = p.push('/');
    if q.len() == 0 {
        assert(a + q =~= a);
        assert(a.drop_last() =~= p);
        assert(pieces(p) + scan(q).0 =~= pieces(p));
    } else {
        lemma_scan_behind(p, q.drop_last());
        assert((a + q).drop_last() =~= a + q.drop_last());
        assert((a + q).last() == q.last());
        assert(pieces(p) + scan(q.drop_last()).0.push(scan(q.drop_last()).1) =~= (pieces(p)
            + scan(q.drop_last()).0).push(scan(q.drop_last()).1));
    }
}

/// The components of two paths with a separator between them: those of the first, and
/// those of the second but for a leading `.`.
pub proof fn lemma_components_of_both(p: Seq<char>, q: Seq<char>)
    requires
        p.len() > 0,
        q.len() > 0,
        !is_absolute(q),
    ensures
        path_components(p.push('/') + q) == path_components(p) + named_pieces(q),
        path_components(p).len() > 0,
        path_components(q).len() > 0,
        path_components(q) == named_pieces(q) || path_components(q) == seq![cur_dir()]
            + named_pieces(q),
{
    let f = |s: Seq<char>| is_named(s);
    lemma_scan_behind(p, q);
    let both = p.push('/') + q;
    assert(pieces(both) =~= pieces(p) + pieces(q));
    Seq::filter_distributes_over_add(pieces(p), pieces(q), f);
    assert(is_absolute(both) == is_absolute(p));
    assert(path_components(both) =~= path_components(p) + named_pieces(q));
    if path_components(p).len() == 0 {
        lemma_no_components(p);
    }
    if path_components(q).len() == 0 {
        lemma_no_components(q);
    }
    if pieces(q)[0] == cur_dir() {
        assert(path_components(q) =~= seq![cur_dir()] + named_pieces(q));
    } else {
        assert(path_components(q) =~= named_pieces(q));
    }
}

/// The components of a path but for a leading `.`, which leads nowhere.
pub open spec fn without_dot(cs: Seq<Seq<char>>) -> Seq<Seq<char>> {
    cs.filter(|c: Seq<char>| c != cur_dir())
}

/// Taking every `.` out leaves two lists written one behind the other as they stand.
pub proof fn lemma_without_dot_of_both(a: Seq<Seq<char>>, b: Seq<Seq<char>>)
    ensures
        without_dot(a + b) == without_dot(a) + without_dot(b),
{
    Seq::filter_distributes_over_add(a, b, |c: Seq<char>| c != cur_dir());
}

/// A list in which no `.` stands is left as it is.
pub proof fn lemma_without_dot_keeps(a: Seq<Seq<char>>)
    requires
        forall|i: int| 0 <= i < a.len() ==> #[trigger] a[i] != cur_dir(),
    ensures
        without_dot(a) == a,
    decreases a.len(),
{
    reveal(Seq::filter);
    if a.len() > 0 {
        let front = a.drop_last();
        assert forall|i: int| 0 <= i < front.len() implies #[trigger] front[i] != cur_dir() by {
            assert(front[i] == a[i]);
        }
        lemma_without_dot_keeps(front);
        assert(a.last() == a[a.len() - 1]);
        assert(a =~= front.push(a.last()));
    } else {
        assert(without_dot(a) =~= a);
    }
}

/// What a relative path pushes onto a path that is not empty: its named pieces.
pub proof fn lemma_components_of_push(p: Seq<char>, q: Seq<char>)
    requires
        p.len() > 0,
        !is_absolute(q),
    ensures
        path_components(path_push(p, q)) == path_components(p) + named_pieces(q),
{
    let f = |s: Seq<char>| is_named(s);
    if p.last() == '/' {
        let front = p.drop_last();
        assert(p =~= front.push('/'));
        lemma_scan_behind(front, q);
        assert(pieces(p + q) =~= pieces(front) + pieces(q));
        Seq::filter_distributes_over_add(pieces(front), pieces(q), f);
        assert(pieces(p) =~= pieces(front).push(Seq::empty()));
        lemma_collect_push(is_absolute(p), pieces(front), Seq::empty());
        assert(is_absolute(p + q) == is_absolute(p));
        assert(path_components(p + q) =~= collect(is_absolute(p), pieces(front))
            + named_pieces(q));
    } else {
        lemma_scan_behind(p, q);
        let both = p.push('/') + q;
        assert(pieces(both) =~= pieces(p) + pieces(q));
        Seq::filter_distributes_over_add(pieces(p), pieces(q), f);
        assert(is_absolute(both) == is_absolute(p));
        assert(path_components(both) =~= path_components(p) + named_pieces(q));
    }
}

/// The components of a relative path are its named pieces, but for a leading `.`.
pub proof fn lemma_named_pieces(q: Seq<char>)
    requires
        !is_absolute(q),
    ensures
        without_dot(path_components(q)) == named_pieces(q),
        without_dot(named_pieces(q)) == named_pieces(q),
{
    let f = |s: Seq<char>| is_named(s);
    let named = named_pieces(q);
    assert forall|i: int| 0 <= i < named.len() implies #[trigger] named[i] != cur_dir() by {
        pieces(q).lemma_filter_pred(f, i);
    }
    lemma_without_dot_keeps(named);
    let dot = seq![cur_dir()];
    if pieces(q)[0] == cur_dir() {
        assert(path_components(q) =~= dot + named);
        lemma_without_dot_of_both(dot, named);
        assert(without_dot(dot) =~= Seq::empty()) by {
            reveal(Seq::filter);
            assert(dot.drop_last() =~= Seq::empty());
        }
        assert(Seq::<Seq<char>>::empty() + named =~= named);
    } else {
        assert(path_components(q) =~= named);
    }
}

/// A relative path that is pushed onto another adds its own components behind the
/// other's; a `.` counts for nothing.
pub proof fn law_push_adds_components(p: Seq<char>, q: Seq<char>)
    requires
        !is_absolute(q),
    ensures
        without_dot(path_components(path_push(p, q))) == without_dot(path_components(p))
            + without_dot(path_components(q)),
{
    lemma_named_pieces(q);
    if p.len() == 0 {
        assert(p + q =~= q);
        lemma_components_of_join(Seq::empty());
        assert(p =~= path_join(Seq::empty()));
        lemma_without_dot_keeps(path_components(p));
        assert(without_dot(path_components(p)) + without_dot(path_components(q))
            =~= without_dot(path_components(q)));
    } else {
        lemma_components_of_push(p, q);
        lemma_without_dot_of_both(path_components(p), named_pieces(q));
    }
}

} // verus!
