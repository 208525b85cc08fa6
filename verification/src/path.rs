//! Unix paths as text: components, lexical normalisation, joining and prefixes.
//!
//! Nothing here looks at a file system. A path is modelled by its components:
//! the root directory is the component `/`, a leading `.` of a relative path is
//! the component `.`, and every other component is a name or `..`.
use crate::text;
use vstd::prelude::*;
use vstd::string::*;

verus! {

/// The component of the root directory.
pub open spec fn root() -> Seq<char> {
    seq!['/']
}

/// The component of the current directory.
pub open spec fn current() -> Seq<char> {
    seq!['.']
}

/// The component of the parent directory.
pub open spec fn parent() -> Seq<char> {
    seq!['.', '.']
}

pub open spec fn absolute(s: Seq<char>) -> bool {
    s.len() > 0 && s[0] == '/'
}

/// A piece between separators that is a component: neither empty nor `.`.
pub open spec fn is_name(piece: Seq<char>) -> bool {
    piece.len() > 0 && piece != current()
}

/// The pieces that are components, in order.
pub open spec fn names(pieces: Seq<Seq<char>>) -> Seq<Seq<char>>
    decreases pieces.len(),
{
    if pieces.len() == 0 {
        Seq::empty()
    } else if is_name(pieces.last()) {
        names(pieces.drop_last()).push(pieces.last())
    } else {
        names(pieces.drop_last())
    }
}

/// The component that a path begins with and that is not a name.
pub open spec fn leading(s: Seq<char>) -> Seq<Seq<char>> {
    if absolute(s) {
        seq![root()]
    } else if text::split(s, '/')[0] == current() {
        seq![current()]
    } else {
        Seq::empty()
    }
}

/// The components of a path.
pub open spec fn parts(s: Seq<char>) -> Seq<Seq<char>> {
    leading(s) + names(text::split(s, '/'))
}

/// The component stays where it is: the root, or one in front of it. No other
/// ends in a slash.
pub open spec fn fixed(c: Seq<char>) -> bool {
    c.len() > 0 && c.last() == '/'
}

/// Components with `.` dropped and `..` taking back the component before it;
/// `..` at the root, or with nothing before it, is dropped.
pub open spec fn normal(ps: Seq<Seq<char>>) -> Seq<Seq<char>>
    decreases ps.len(),
{
    if ps.len() == 0 {
        Seq::empty()
    } else {
        let before = normal(ps.drop_last());
        if ps.last() == current() {
            before
        } else if ps.last() == parent() {
            if before.len() > 0 && !fixed(before.last()) {
                before.drop_last()
            } else {
                before
            }
        } else {
            before.push(ps.last())
        }
    }
}

/// `p` seen from `base`: an absolute `p` stands for itself.
pub open spec fn joined(base: Seq<char>, p: Seq<char>) -> Seq<char> {
    if absolute(p) {
        p
    } else if base.len() == 0 || base.last() == '/' {
        base + p
    } else {
        base.push('/') + p
    }
}

/// Components joined into a path.
pub open spec fn rendered(ps: Seq<Seq<char>>) -> Seq<char>
    decreases ps.len(),
{
    if ps.len() == 0 {
        Seq::empty()
    } else {
        joined(rendered(ps.drop_last()), ps.last())
    }
}

/// The components of `p` seen from `base`, normalised.
pub open spec fn resolved(base: Seq<char>, p: Seq<char>) -> Seq<Seq<char>> {
    normal(parts(joined(base, p)))
}

/// A path with components `a` is the path with components `b` or lies below it.
pub open spec fn under(a: Seq<Seq<char>>, b: Seq<Seq<char>>) -> bool {
    b.is_prefix_of(a)
}

/// `pieces` from behind the `n`-th piece that is a component.
pub open spec fn past_names(pieces: Seq<Seq<char>>, n: int) -> Seq<Seq<char>>
    decreases pieces.len(),
{
    if n <= 0 || pieces.len() == 0 {
        pieces
    } else {
        past_names(
            pieces.subrange(1, pieces.len() as int),
            if is_name(pieces[0]) { n - 1 } else { n },
        )
    }
}

/// `pieces` without the leading ones that are no components.
pub open spec fn from_name(pieces: Seq<Seq<char>>) -> Seq<Seq<char>>
    decreases pieces.len(),
{
    if pieces.len() > 0 && !is_name(pieces[0]) {
        from_name(pieces.subrange(1, pieces.len() as int))
    } else {
        pieces
    }
}

/// `pieces` without the trailing ones that are no components.
pub open spec fn to_name(pieces: Seq<Seq<char>>) -> Seq<Seq<char>>
    decreases pieces.len(),
{
    if pieces.len() > 0 && !is_name(pieces.last()) {
        to_name(pieces.drop_last())
    } else {
        pieces
    }
}

/// The pieces with a separator between neighbours.
pub open spec fn slashed(pieces: Seq<Seq<char>>) -> Seq<char>
    decreases pieces.len(),
{
    if pieces.len() == 0 {
        Seq::empty()
    } else if pieces.len() == 1 {
        pieces[0]
    } else {
        slashed(pieces.drop_last()).push('/') + pieces.last()
    }
}

/// The text of the path `s` behind its first `n` components: from the start of
/// the next component to the end of the last one, as it is written in `s`.
pub open spec fn tail_text(s: Seq<char>, n: int) -> Seq<char> {
    let pieces = text::split(s, '/');
    let l = leading(s).len() as int;
    let body = pieces.subrange(l, pieces.len() as int);
    if n > 0 {
        slashed(to_name(from_name(past_names(body, n - l))))
    } else if l == 0 {
        slashed(to_name(body))
    } else if to_name(body).len() == 0 {
        leading(s)[0]
    } else {
        pieces[0].push('/') + slashed(to_name(body))
    }
}

/// What normalisation leaves: names other than `..`, and a root only in front.
pub open spec fn clean(ps: Seq<Seq<char>>) -> bool {
    forall|i: int|
        0 <= i < ps.len() ==> {
            &&& is_name(#[trigger] ps[i])
            &&& ps[i] != parent()
            &&& !ps[i].contains('/') || (i == 0 && ps[i] == root())
        }
}

// ---------------------------------------------------------------------------
// Laws
// ---------------------------------------------------------------------------
/// There is always at least one piece.
pub proof fn split_nonempty(s: Seq<char>, c: char)
    ensures
        text::split(s, c).len() > 0,
    decreases s.len(),
{
    if s.len() > 0 {
        split_nonempty(s.drop_last(), c);
    }
}

/// No piece holds the separator.
proof fn split_pieces(s: Seq<char>, c: char)
    ensures
        text::split(s, c).len() > 0,
        forall|i: int| 0 <= i < text::split(s, c).len() ==> !(#[trigger] text::split(s, c)[i]).contains(c),
    decreases s.len(),
{
    if s.len() > 0 {
        split_pieces(s.drop_last(), c);
        let before = text::split(s.drop_last(), c);
        let after = text::split(s, c);
        assert forall|i: int| 0 <= i < after.len() implies !(#[trigger] after[i]).contains(c) by {
            if i < before.len() - 1 {
                assert(after[i] == before[i]);
            } else if s.last() != c {
                assert(after[i] == before.last().push(s.last()));
                assert(!before[before.len() - 1].contains(c));
                if after[i].contains(c) {
                    let k = choose|k: int| 0 <= k < after[i].len() && after[i][k] == c;
                    assert(k < before.last().len());
                    assert(before.last()[k] == c);
                }
            }
        }
    }
}

proof fn split_append(x: Seq<char>, b: Seq<char>, c: char)
    requires
        !b.contains(c),
    ensures
        text::split(x + b, c) == text::split(x, c).drop_last().push(text::split(x, c).last() + b),
    decreases b.len(),
{
    split_nonempty(x, c);
    let sx = text::split(x, c);
    if b.len() == 0 {
        assert(x + b =~= x);
        assert(sx.last() + b =~= sx.last());
        assert(sx.drop_last().push(sx.last()) =~= sx);
    } else {
        assert forall|i: int| 0 <= i < b.drop_last().len() implies b.drop_last()[i] != c by {
            assert(b[i] == b.drop_last()[i]);
        }
        split_append(x, b.drop_last(), c);
        assert((x + b).drop_last() =~= x + b.drop_last());
        assert((x + b).last() == b.last());
        assert(b[b.len() - 1] != c);
        let mid = sx.drop_last().push(sx.last() + b.drop_last());
        assert(mid.drop_last() =~= sx.drop_last());
        assert((sx.last() + b.drop_last()).push(b.last()) =~= sx.last() + b);
    }
}

proof fn split_join(x: Seq<char>, b: Seq<char>, c: char)
    requires
        !b.contains(c),
    ensures
        text::split(x.push(c) + b, c) == text::split(x, c).push(b),
{
    split_append(x.push(c), b, c);
    assert(x.push(c).drop_last() =~= x);
    let sx = text::split(x, c);
    assert(text::split(x.push(c), c) == sx.push(Seq::empty()));
    assert(sx.push(Seq::empty()).drop_last() =~= sx);
    assert(Seq::<char>::empty() + b =~= b);
}

proof fn names_clean(pieces: Seq<Seq<char>>)
    requires
        forall|i: int| 0 <= i < pieces.len() ==> !(#[trigger] pieces[i]).contains('/'),
    ensures
        forall|i: int|
            0 <= i < names(pieces).len() ==> is_name(#[trigger] names(pieces)[i]) && !names(
                pieces,
            )[i].contains('/'),
    decreases pieces.len(),
{
    if pieces.len() > 0 {
        assert forall|i: int| 0 <= i < pieces.drop_last().len() implies !(
        #[trigger] pieces.drop_last()[i]).contains('/') by {
            assert(pieces[i] == pieces.drop_last()[i]);
        }
        names_clean(pieces.drop_last());
        assert(!pieces[pieces.len() - 1].contains('/'));
        let before = names(pieces.drop_last());
        let all = names(pieces);
        assert forall|i: int| 0 <= i < all.len() implies is_name(#[trigger] all[i])
            && !all[i].contains('/') by {
            if i < before.len() {
                assert(all[i] == before[i]);
            } else {
                assert(all[i] == pieces.last());
            }
        }
    }
}

/// Normalising component lists leaves clean ones.
proof fn normal_is_clean(ps: Seq<Seq<char>>)
    requires
        forall|i: int|
            0 <= i < ps.len() ==> {
                ||| is_name(#[trigger] ps[i]) && !ps[i].contains('/')
                ||| i == 0 && (ps[i] == root() || ps[i] == current())
            },
    ensures
        clean(normal(ps)),
        normal(ps).len() <= ps.len(),
    decreases ps.len(),
{
    if ps.len() > 0 {
        let front = ps.drop_last();
        assert forall|i: int| 0 <= i < front.len() implies {
            ||| is_name(#[trigger] front[i]) && !front[i].contains('/')
            ||| i == 0 && (front[i] == root() || front[i] == current())
        } by {
            assert(front[i] == ps[i]);
        }
        normal_is_clean(front);
        let before = normal(front);
        let last = ps[ps.len() - 1];
        assert(last == ps.last());
        if last != current() && last != parent() {
            assert(is_name(last));
            assert(!last.contains('/') || ps.len() == 1);
        }
    }
}

/// Normalised components of a path are clean.
pub proof fn resolved_is_clean(s: Seq<char>)
    ensures
        clean(normal(parts(s))),
{
    split_pieces(s, '/');
    names_clean(text::split(s, '/'));
    let ps = parts(s);
    assert forall|i: int| 0 <= i < ps.len() implies {
        ||| is_name(#[trigger] ps[i]) && !ps[i].contains('/')
        ||| i == 0 && (ps[i] == root() || ps[i] == current())
    } by {
        let l = leading(s).len() as int;
        if i >= l {
            assert(ps[i] == names(text::split(s, '/'))[i - l]);
        }
    }
    normal_is_clean(ps);
}

/// The components of a rendered clean list are that list again.
pub proof fn parts_of_rendered(ps: Seq<Seq<char>>)
    requires
        clean(ps),
    ensures
        parts(rendered(ps)) == ps,
        ps.len() > 0 ==> rendered(ps).len() > 0,
        ps.len() > 0 && rendered(ps).last() == '/' ==> ps == seq![root()],
        absolute(rendered(ps)) <==> (ps.len() > 0 && ps[0] == root()),
    decreases ps.len(),
{
    reveal_with_fuel(names, 3);
    reveal_with_fuel(text::split, 3);
    let e = Seq::<char>::empty();
    assert(text::split(e, '/') =~= seq![e]);
    if ps.len() == 0 {
        assert(seq![e].drop_last() =~= Seq::<Seq<char>>::empty());
        assert(names(seq![e]) =~= Seq::<Seq<char>>::empty());
        assert(seq![e][0] == e);
        assert(e.len() != current().len());
        assert(parts(e) =~= ps);
    } else {
        let front = ps.drop_last();
        let q = ps.last();
        assert(q == ps[ps.len() - 1]);
        assert forall|i: int| 0 <= i < front.len() implies {
            &&& is_name(#[trigger] front[i])
            &&& front[i] != parent()
            &&& !front[i].contains('/') || (i == 0 && front[i] == root())
        } by {
            assert(front[i] == ps[i]);
        }
        parts_of_rendered(front);
        let r = rendered(front);
        assert(front.push(q) =~= ps);
        if front.len() == 0 {
            assert(r =~= e);
            if q == root() {
                assert(rendered(ps) == root());
                assert(root().drop_last() =~= e);
                assert(text::split(root(), '/') =~= seq![e, e]);
                assert(seq![e, e].drop_last() =~= seq![e]);
                assert(seq![e].drop_last() =~= Seq::<Seq<char>>::empty());
                assert(names(seq![e, e]) =~= Seq::<Seq<char>>::empty());
                assert(parts(root()) =~= ps);
            } else {
                assert(!absolute(q)) by {
                    if absolute(q) {
                        assert(q[0] == '/');
                        assert(q.contains('/'));
                    }
                }
                assert(rendered(ps) =~= q);
                split_append(e, q, '/');
                assert(e + q =~= q);
                assert(text::split(q, '/') =~= seq![q]);
                assert(seq![q].drop_last() =~= Seq::<Seq<char>>::empty());
                assert(names(seq![q]) =~= seq![q]);
                assert(parts(q) =~= ps);
                if q.last() == '/' {
                    assert(q[q.len() - 1] == '/');
                    assert(q.contains('/'));
                }
            }
        } else {
            assert(!q.contains('/'));
            assert(!absolute(q)) by {
                if absolute(q) {
                    assert(q[0] == '/');
                    assert(q.contains('/'));
                }
            }
            let sr = text::split(r, '/');
            split_nonempty(r, '/');
            if r.last() == '/' {
                assert(front == seq![root()]);
                assert(r =~= root()) by {
                    assert(front.drop_last() =~= Seq::<Seq<char>>::empty());
                }
                assert(rendered(ps) =~= root() + q);
                assert(root() =~= e.push('/'));
                split_join(e, q, '/');
                assert(text::split(root() + q, '/') =~= seq![e, q]);
                assert(seq![e, q].drop_last() =~= seq![e]);
                assert(seq![e].drop_last() =~= Seq::<Seq<char>>::empty());
                assert(names(seq![e, q]) =~= seq![q]);
                assert(parts(root() + q) =~= ps);
            } else {
                split_join(r, q, '/');
                assert(sr.push(q).drop_last() =~= sr);
                assert(names(sr.push(q)) =~= names(sr).push(q));
                let t = r.push('/') + q;
                assert(rendered(ps) == t);
                assert(t[0] == r[0]);
                assert(sr.push(q)[0] == sr[0]);
                assert(leading(t) == leading(r));
                assert(parts(t) =~= parts(r).push(q));
            }
            if rendered(ps).last() == '/' {
                assert(rendered(ps).last() == q[q.len() - 1]);
                assert(q.contains('/'));
            }
        }
    }
}

/// Normalising clean components changes nothing.
pub proof fn normal_of_clean(ps: Seq<Seq<char>>)
    requires
        clean(ps),
    ensures
        normal(ps) == ps,
    decreases ps.len(),
{
    if ps.len() > 0 {
        let front = ps.drop_last();
        assert forall|i: int| 0 <= i < front.len() implies {
            &&& is_name(#[trigger] front[i])
            &&& front[i] != parent()
            &&& !front[i].contains('/') || (i == 0 && front[i] == root())
        } by {
            assert(front[i] == ps[i]);
        }
        normal_of_clean(front);
        assert(is_name(ps[ps.len() - 1]));
        assert(ps[ps.len() - 1] != parent());
        assert(front.push(ps.last()) =~= ps);
    } else {
        assert(normal(ps) =~= ps);
    }
}

proof fn root_stays(ps: Seq<Seq<char>>)
    requires
        ps.len() > 0,
        ps[0] == root(),
    ensures
        normal(ps).len() > 0,
        normal(ps)[0] == root(),
    decreases ps.len(),
{
    reveal_with_fuel(normal, 2);
    if ps.len() > 1 {
        root_stays(ps.drop_last());
    } else {
        assert(ps.drop_last() =~= Seq::<Seq<char>>::empty());
        assert(root().len() == 1 && root()[0] == '/');
        assert(root() != current()) by {
            assert(current()[0] == '.');
        }
        assert(root() != parent()) by {
            assert(parent().len() == 2);
        }
    }
}

/// An absolute path stays absolute when it is normalised.
pub proof fn normal_keeps_root(s: Seq<char>)
    requires
        absolute(s),
    ensures
        absolute(rendered(normal(parts(s)))),
{
    assert(parts(s)[0] == root());
    root_stays(parts(s));
    resolved_is_clean(s);
    parts_of_rendered(normal(parts(s)));
}

/// A path whose first component is the root is absolute.
pub proof fn root_first_is_absolute(s: Seq<char>)
    ensures
        parts(s).len() > 0 && parts(s)[0] == root() <==> absolute(s),
{
    split_pieces(s, '/');
    names_clean(text::split(s, '/'));
    if !absolute(s) && parts(s).len() > 0 {
        assert(root()[0] == '/');
        assert(root().contains('/'));
        if leading(s).len() == 0 {
            assert(parts(s)[0] == names(text::split(s, '/'))[0]);
        } else {
            assert(parts(s)[0] == current());
            assert(current()[0] == '.');
        }
    }
}

/// The first component of a path holds no slash unless it is the root.
pub proof fn first_part_is_root_or_name(s: Seq<char>)
    ensures
        parts(s).len() > 0 && parts(s)[0].contains('/') ==> parts(s)[0] == root(),
{
    split_pieces(s, '/');
    names_clean(text::split(s, '/'));
    if parts(s).len() > 0 {
        if leading(s).len() == 0 {
            assert(parts(s)[0] == names(text::split(s, '/'))[0]);
        } else {
            assert(parts(s)[0] == leading(s)[0]);
            if parts(s)[0] == current() && current().contains('/') {
                let i = choose|i: int| 0 <= i < current().len() && current()[i] == '/';
                assert(current()[i] == '.');
            }
        }
    }
}

/// A separator splits what is in front of it from what is behind it.
proof fn split_at(x: Seq<char>, b: Seq<char>, c: char)
    ensures
        text::split(x.push(c) + b, c) == text::split(x, c) + text::split(b, c),
    decreases b.len(),
{
    let sx = text::split(x, c);
    let sb = text::split(b, c);
    if b.len() == 0 {
        assert(x.push(c) + b =~= x.push(c));
        assert(x.push(c).drop_last() =~= x);
        assert(sx.push(Seq::empty()) =~= sx + sb);
    } else {
        let front = b.drop_last();
        split_at(x, front, c);
        split_nonempty(front, c);
        let sf = text::split(front, c);
        let all = x.push(c) + b;
        assert(all.drop_last() =~= x.push(c) + front);
        assert(all.last() == b.last());
        if b.last() == c {
            assert((sx + sf).push(Seq::empty()) =~= sx + sb);
        } else {
            assert((sx + sf).last() == sf.last());
            assert((sx + sf).drop_last() =~= sx + sf.drop_last());
            assert(text::split(all, c) =~= sx + sb);
        }
    }
}

proof fn names_concat(a: Seq<Seq<char>>, b: Seq<Seq<char>>)
    ensures
        names(a + b) == names(a) + names(b),
    decreases b.len(),
{
    if b.len() == 0 {
        assert(a + b =~= a);
        assert(names(a) + names(b) =~= names(a));
    } else {
        names_concat(a, b.drop_last());
        assert((a + b).drop_last() =~= a + b.drop_last());
        assert((a + b).last() == b.last());
        assert(names(a + b) =~= names(a) + names(b));
    }
}

/// A relative path goes on behind the components of what it is seen from.
pub proof fn parts_of_joined(base: Seq<char>, p: Seq<char>)
    requires
        base.len() > 0,
        !absolute(p),
    ensures
        parts(joined(base, p)) == parts(base) + names(text::split(p, '/')),
{
    let j = joined(base, p);
    let x = if base.last() == '/' {
        base.drop_last()
    } else {
        base
    };
    assert(j =~= x.push('/') + p);
    split_at(x, p, '/');
    names_concat(text::split(x, '/'), text::split(p, '/'));
    split_nonempty(x, '/');
    assert(absolute(j) == absolute(base)) by {
        assert(j[0] == base[0]);
    }
    if base.last() == '/' {
        assert(text::split(base, '/') == text::split(x, '/').push(Seq::empty()));
        assert(text::split(base, '/').drop_last() =~= text::split(x, '/'));
        assert(names(text::split(base, '/')) == names(text::split(x, '/')));
    }
    assert(leading(j) == leading(base));
    assert(parts(j) =~= parts(base) + names(text::split(p, '/')));
}

/// Normalisation settles: normalising a normalised path changes nothing.
pub proof fn normalize_is_idempotent(s: Seq<char>)
    ensures
        rendered(normal(parts(rendered(normal(parts(s)))))) == rendered(normal(parts(s))),
{
    resolved_is_clean(s);
    parts_of_rendered(normal(parts(s)));
    normal_of_clean(normal(parts(s)));
}

// ---------------------------------------------------------------------------
// Operations
// ---------------------------------------------------------------------------
pub fn is_absolute(s: &str) -> (r: bool)
    ensures
        r == absolute(s@),
{
    s.unicode_len() > 0 && s.get_char(0) == '/'
}

fn piece_is_name(p: &str) -> (r: bool)
    ensures
        r == is_name(p@),
{
    proof {
        reveal_strlit(".");
    }
    assert("."@ =~= current());
    !p.is_empty() && !text::same(p, ".")
}

/// The components of a path.
pub fn components(s: &str) -> (r: Vec<String>)
    ensures
        r.deep_view() == parts(s@),
{
    let pieces = text::split_on(s, '/');
    let ghost ps = text::split(s@, '/');
    let mut r: Vec<String> = Vec::new();
    proof {
        split_nonempty(s@, '/');
        reveal_strlit("/");
        reveal_strlit(".");
        assert("/"@ =~= root());
        assert("."@ =~= current());
    }
    assert(pieces.deep_view()[0] == pieces@[0]@);
    if is_absolute(s) {
        r.push("/".to_owned());
    } else if text::same(pieces[0].as_str(), ".") {
        r.push(".".to_owned());
    }
    let mut i: usize = 0;
    assert(ps.take(0) =~= Seq::<Seq<char>>::empty());
    assert(r.deep_view() =~= leading(s@) + names(ps.take(0)));
    while i < pieces.len()
        invariant
            i <= pieces.len(),
            pieces.deep_view() == ps,
            r.deep_view() == leading(s@) + names(ps.take(i as int)),
        decreases pieces.len() - i,
    {
        assert(ps[i as int] == pieces@[i as int]@);
        assert(ps.take(i + 1).drop_last() =~= ps.take(i as int));
        let ghost before = r.deep_view();
        if piece_is_name(pieces[i].as_str()) {
            r.push(pieces[i].clone());
            assert(r.deep_view() =~= before.push(ps[i as int]));
            assert(r.deep_view() =~= leading(s@) + names(ps.take(i + 1)));
        }
        i += 1;
    }
    assert(ps.take(ps.len() as int) =~= ps);
    r
}

/// The components without `.` and `..`.
pub fn normal_components(s: &str) -> (r: Vec<String>)
    ensures
        r.deep_view() == normal(parts(s@)),
{
    normal_of(&components(s))
}

/// Whether `..` does not leave the component.
pub fn is_fixed(c: &str) -> (r: bool)
    ensures
        r == fixed(c@),
{
    let n: usize = c.unicode_len();
    n > 0 && c.get_char(n - 1) == '/'
}

/// The components without `.` and `..`.
pub fn normal_of(ps: &Vec<String>) -> (r: Vec<String>)
    ensures
        r.deep_view() == normal(ps.deep_view()),
{
    let ghost m = ps.deep_view();
    let mut r: Vec<String> = Vec::new();
    let mut i: usize = 0;
    assert(m.take(0) =~= Seq::<Seq<char>>::empty());
    assert(r.deep_view() =~= normal(m.take(0)));
    proof {
        reveal_strlit(".");
        reveal_strlit("..");
        assert("."@ =~= current());
        assert(".."@ =~= parent());
    }
    while i < ps.len()
        invariant
            i <= ps.len(),
            ps.deep_view() == m,
            r.deep_view() == normal(m.take(i as int)),
            "."@ == current(),
            ".."@ == parent(),
        decreases ps.len() - i,
    {
        assert(m[i as int] == ps@[i as int]@);
        assert(m.take(i + 1).drop_last() =~= m.take(i as int));
        let ghost before = r.deep_view();
        let p = ps[i].as_str();
        if text::same(p, ".") {
        } else if text::same(p, "..") {
            if r.len() > 0 {
                assert(before.last() == r@[r.len() - 1]@);
                if !is_fixed(r[r.len() - 1].as_str()) {
                    r.pop();
                    assert(r.deep_view() =~= before.drop_last());
                }
            }
        } else {
            r.push(ps[i].clone());
            assert(r.deep_view() =~= before.push(m[i as int]));
        }
        i += 1;
    }
    assert(m.take(m.len() as int) =~= m);
    r
}

/// `p` seen from `base`.
pub fn join(base: &str, p: &str) -> (r: String)
    ensures
        r@ == joined(base@, p@),
{
    if is_absolute(p) {
        return p.to_owned();
    }
    let n: usize = base.unicode_len();
    let mut r = base.to_owned();
    if n > 0 && base.get_char(n - 1) != '/' {
        r.push('/');
    }
    r.append(p);
    r
}

/// Components joined into a path.
pub fn render(ps: &Vec<String>) -> (r: String)
    ensures
        r@ == rendered(ps.deep_view()),
{
    let ghost m = ps.deep_view();
    let mut r = String::new();
    let mut i: usize = 0;
    assert(m.take(0) =~= Seq::<Seq<char>>::empty());
    while i < ps.len()
        invariant
            i <= ps.len(),
            ps.deep_view() == m,
            r@ == rendered(m.take(i as int)),
        decreases ps.len() - i,
    {
        assert(m[i as int] == ps@[i as int]@);
        assert(m.take(i + 1).drop_last() =~= m.take(i as int));
        r = join(r.as_str(), ps[i].as_str());
        i += 1;
    }
    assert(m.take(m.len() as int) =~= m);
    r
}

/// Whether the components `a` are `b` or begin with `b`.
pub fn is_under(a: &Vec<String>, b: &Vec<String>) -> (r: bool)
    ensures
        r == under(a.deep_view(), b.deep_view()),
{
    let ghost x = a.deep_view();
    let ghost y = b.deep_view();
    if a.len() < b.len() {
        return false;
    }
    let mut i: usize = 0;
    while i < b.len()
        invariant
            i <= b.len() <= a.len(),
            a.deep_view() == x,
            b.deep_view() == y,
            forall|k: int| 0 <= k < i ==> x[k] == y[k],
        decreases b.len() - i,
    {
        assert(x[i as int] == a@[i as int]@);
        assert(y[i as int] == b@[i as int]@);
        if !text::same(a[i].as_str(), b[i].as_str()) {
            assert(x.subrange(0, y.len() as int)[i as int] == x[i as int]);
            return false;
        }
        i += 1;
    }
    assert(x.subrange(0, y.len() as int) =~= y);
    true
}

/// Whether the path `a` begins with the components of `b`.
pub fn starts_with(a: &str, b: &str) -> (r: bool)
    ensures
        r == under(parts(a@), parts(b@)),
{
    is_under(&components(a), &components(b))
}

fn slash_join(pieces: &Vec<String>, i: usize, j: usize) -> (r: String)
    requires
        i <= j <= pieces.len(),
    ensures
        r@ == slashed(pieces.deep_view().subrange(i as int, j as int)),
{
    let ghost m = pieces.deep_view();
    let mut r = String::new();
    let mut k: usize = i;
    assert(m.subrange(i as int, i as int) =~= Seq::<Seq<char>>::empty());
    while k < j
        invariant
            i <= k <= j <= pieces.len(),
            m == pieces.deep_view(),
            r@ == slashed(m.subrange(i as int, k as int)),
        decreases j - k,
    {
        assert(m.subrange(i as int, k + 1).drop_last() =~= m.subrange(i as int, k as int));
        assert(m[k as int] == pieces@[k as int]@);
        if k > i {
            r.push('/');
        }
        r.append(pieces[k].as_str());
        k += 1;
        if k == i + 1 {
            assert(r@ =~= m[i as int]);
        }
    }
    r
}

/// What is left of the path `a` behind the components of `b`, if it begins with
/// them.
pub fn strip_prefix(a: &str, b: &str) -> (r: Option<String>)
    ensures
        match r {
            Some(t) => under(parts(a@), parts(b@)) && t@ == tail_text(
                a@,
                parts(b@).len() as int,
            ),
            None => !under(parts(a@), parts(b@)),
        },
{
    let y = components(b);
    if !is_under(&components(a), &y) {
        return None;
    }
    Some(tail_of(a, y.len()))
}

/// The text of the path `a` behind its first `count` components.
pub fn tail_of(a: &str, count: usize) -> (r: String)
    ensures
        r@ == tail_text(a@, count as int),
{
    let pieces = text::split_on(a, '/');
    let ghost m = text::split(a@, '/');
    proof {
        split_nonempty(a@, '/');
        reveal_strlit(".");
        reveal_strlit("/");
        assert("."@ =~= current());
        assert("/"@ =~= root());
    }
    assert(m[0] == pieces@[0]@);
    let l: usize = if is_absolute(a) || text::same(pieces[0].as_str(), ".") { 1 } else { 0 };
    let ghost body = m.subrange(l as int, m.len() as int);
    assert(l == leading(a@).len());
    let mut i: usize = l;
    let ghost goal = from_name(past_names(body, count - l));
    if count > 0 {
        let mut n: usize = if count >= l { count - l } else { 0 };
        while n > 0 && i < pieces.len()
            invariant
                m == pieces.deep_view(),
                l <= i <= pieces.len(),
                past_names(body, count - l) == past_names(m.subrange(i as int, m.len() as int), n as int),
            ensures
                l <= i <= pieces.len(),
                past_names(body, count - l) == m.subrange(i as int, m.len() as int),
            decreases pieces.len() - i,
        {
            assert(m[i as int] == pieces@[i as int]@);
            assert(m.subrange(i as int, m.len() as int).subrange(1, m.len() - i) =~= m.subrange(
                i + 1,
                m.len() as int,
            ));
            if piece_is_name(pieces[i].as_str()) {
                n -= 1;
            }
            i += 1;
        }
        while i < pieces.len() && !piece_is_name(pieces[i].as_str())
            invariant
                m == pieces.deep_view(),
                l <= i <= pieces.len(),
                goal == from_name(m.subrange(i as int, m.len() as int)),
            ensures
                l <= i <= pieces.len(),
                goal == m.subrange(i as int, m.len() as int),
            decreases pieces.len() - i,
        {
            assert(m[i as int] == pieces@[i as int]@);
            assert(m.subrange(i as int, m.len() as int).subrange(1, m.len() - i) =~= m.subrange(
                i + 1,
                m.len() as int,
            ));
            i += 1;
        }
    }
    let ghost front = m.subrange(i as int, m.len() as int);
    let mut j: usize = pieces.len();
    while i < j && !piece_is_name(pieces[j - 1].as_str())
        invariant
            m == pieces.deep_view(),
            i <= j <= pieces.len(),
            to_name(front) == to_name(m.subrange(i as int, j as int)),
        ensures
            i <= j <= pieces.len(),
            to_name(front) == m.subrange(i as int, j as int),
        decreases j - i,
    {
        assert(m[j - 1] == pieces@[j - 1]@);
        assert(m.subrange(i as int, j as int).drop_last() =~= m.subrange(i as int, j - 1));
        j -= 1;
    }
    let rest = slash_join(&pieces, i, j);
    if count > 0 || l == 0 {
        return rest;
    }
    if i == j {
        return if is_absolute(a) {
            "/".to_owned()
        } else {
            ".".to_owned()
        };
    }
    let mut t = pieces[0].clone();
    t.push('/');
    t.append(rest.as_str());
    t
}

/// Whether two paths have the same components.
pub fn same(a: &str, b: &str) -> (r: bool)
    ensures
        r == (parts(a@) == parts(b@)),
{
    let x = components(a);
    let y = components(b);
    let r = x.len() == y.len() && is_under(&x, &y);
    proof {
        if r {
            assert(parts(b@) =~= parts(a@));
        } else if parts(a@) == parts(b@) {
            assert(parts(a@).subrange(0, parts(b@).len() as int) =~= parts(b@));
        }
    }
    r
}

/// The path with `.` and `..` worked out from the text alone.
pub fn normalize(s: &str) -> (r: String)
    ensures
        r@ == rendered(normal(parts(s@))),
{
    render(&normal_components(s))
}

/// The last component of a path, if it is a name other than `..`.
pub open spec fn last_name(s: Seq<char>) -> Option<Seq<char>> {
    let ps = parts(s);
    if ps.len() > 0 && is_name(ps.last()) && ps.last() != root() && ps.last() != parent() {
        Some(ps.last())
    } else {
        None
    }
}

/// The last component of the path, if it is a name other than `..`.
pub fn file_name(s: &str) -> (r: Option<String>)
    ensures
        r.deep_view() == last_name(s@),
{
    let ps = components(s);
    if ps.len() == 0 {
        return None;
    }
    proof {
        reveal_strlit("/");
        reveal_strlit("..");
        assert("/"@ =~= root());
        assert(".."@ =~= parent());
    }
    assert(parts(s@).last() == ps@[ps.len() - 1]@);
    let last = ps[ps.len() - 1].as_str();
    if piece_is_name(last) && !text::same(last, "/") && !text::same(last, "..") {
        Some(last.to_owned())
    } else {
        None
    }
}

/// What a path is made of: a name behind a slash is one more component; an empty piece
/// and a piece that is only a dot are none; a path that begins with a slash begins at
/// the root; one that begins with a dot begins where it is.
pub proof fn what_paths_are_made_of(s: Seq<char>, name: Seq<char>)
    requires
        !name.contains('/'),
    ensures
        s.len() > 0 && name.len() > 0 && name != seq!['.'] ==> parts(s.push('/') + name) == parts(
            s,
        ).push(name),
        s.len() > 0 ==> parts(s.push('/')) == parts(s),
        s.len() > 0 ==> parts(s.push('/').push('.')) == parts(s),
        name.len() > 0 ==> parts(name) == seq![name],
        name.len() > 0 && name != seq!['.'] ==> parts(seq!['/'] + name) == seq![seq!['/'], name],
        parts(seq!['/']) == seq![seq!['/']],
        parts(Seq::<char>::empty()).len() == 0,
{
    let none = Seq::<char>::empty();
    let dot = seq!['.'];
    reveal_with_fuel(names, 3);
    assert(!none.contains('/'));
    assert(!dot.contains('/')) by {
        assert(dot[0] != '/');
    }
    text::split_cuts_at_separators(s, name, '/');
    text::split_cuts_at_separators(s, none, '/');
    text::split_cuts_at_separators(s, dot, '/');
    text::split_cuts_at_separators(none, name, '/');
    text::split_cuts_at_separators(none, none, '/');
    assert(s.push('/') + none =~= s.push('/'));
    assert(s.push('/') + dot =~= s.push('/').push('.'));
    assert(none.push('/') + name =~= seq!['/'] + name);
    assert(none.push('/') + none =~= seq!['/']);
    split_nonempty(s, '/');
    let x = text::split(s, '/');
    assert(x.push(name).drop_last() =~= x);
    assert(x.push(none).drop_last() =~= x);
    assert(x.push(dot).drop_last() =~= x);
    if s.len() > 0 {
        assert((s.push('/') + name)[0] == s[0]);
        assert(s.push('/')[0] == s[0]);
        assert(s.push('/').push('.')[0] == s[0]);
        assert(x.push(name)[0] == x[0]);
        assert(x.push(none)[0] == x[0]);
        assert(x.push(dot)[0] == x[0]);
        assert(parts(s.push('/') + name) =~= leading(s) + names(x.push(name)));
        assert(parts(s.push('/')) =~= leading(s) + names(x));
        assert(parts(s.push('/').push('.')) =~= leading(s) + names(x));
    }
    if name.len() > 0 {
        assert(name[0] != '/') by {
            if name[0] == '/' {
                assert(name.contains('/'));
            }
        }
        let only = seq![name];
        assert(only.drop_last() =~= Seq::<Seq<char>>::empty());
        assert(names(only.drop_last()) =~= Seq::<Seq<char>>::empty());
        assert(parts(name) =~= seq![name]);
        let two = seq![none].push(name);
        assert(two.drop_last() =~= seq![none]);
        assert(seq![none].drop_last() =~= Seq::<Seq<char>>::empty());
        assert(names(seq![none]) =~= Seq::<Seq<char>>::empty());
        if name != dot {
            assert(parts(seq!['/'] + name) =~= seq![seq!['/'], name]);
        }
    }
    let blank = seq![none].push(none);
    assert(blank.drop_last() =~= seq![none]);
    assert(seq![none].drop_last() =~= Seq::<Seq<char>>::empty());
    assert(names(seq![none]) =~= Seq::<Seq<char>>::empty());
    assert(names(blank) =~= Seq::<Seq<char>>::empty());
    assert(parts(seq!['/']) =~= seq![seq!['/']]);
    assert(text::split(none, '/') =~= seq![none]);
    assert(parts(none) =~= Seq::<Seq<char>>::empty());
}

/// Putting a path in order: a dot changes nothing, two dots take back the name in front
/// of them, and stay where they are at the root; every other name is kept.
pub proof fn how_paths_are_put_in_order(ps: Seq<Seq<char>>, name: Seq<char>)
    ensures
        normal(Seq::empty()).len() == 0,
        normal(ps.push(seq!['.'])) == normal(ps),
        name != seq!['.'] && name != seq!['.', '.'] ==> normal(ps.push(name)) == normal(ps).push(
            name,
        ),
        name != seq!['.'] && name != seq!['.', '.'] && name.len() > 0 && name.last() != '/'
            ==> normal(ps.push(name).push(seq!['.', '.'])) == normal(ps),
        normal(seq![seq!['/']].push(seq!['.', '.'])) == seq![seq!['/']],
        normal(ps).len() == 0 ==> normal(ps.push(seq!['.', '.'])).len() == 0,
{
    let dot = seq!['.'];
    let up = seq!['.', '.'];
    reveal_with_fuel(normal, 3);
    assert(dot.len() != up.len());
    assert(ps.push(dot).drop_last() =~= ps);
    assert(ps.push(up).drop_last() =~= ps);
    assert(ps.push(name).drop_last() =~= ps);
    assert(ps.push(name).push(up).drop_last() =~= ps.push(name));
    assert(normal(ps).push(name).drop_last() =~= normal(ps));
    let r = seq![seq!['/']];
    assert(r.drop_last() =~= Seq::<Seq<char>>::empty());
    assert(seq!['/'][0] != dot[0]);
    assert(seq!['/'] != dot && seq!['/'] != up);
    assert(normal(r) =~= r);
    assert(r.push(up).drop_last() =~= r);
}

/// A path is below another if it has all its components, in order and from the first.
pub proof fn below_is_by_components(a: Seq<Seq<char>>, b: Seq<Seq<char>>)
    ensures
        under(a, b) <==> b.len() <= a.len() && forall|i: int|
            0 <= i < b.len() ==> a[i] == #[trigger] b[i],
{
    if b.len() <= a.len() && forall|i: int| 0 <= i < b.len() ==> a[i] == #[trigger] b[i] {
        assert(a.subrange(0, b.len() as int) =~= b);
    }
    if under(a, b) {
        assert forall|i: int| 0 <= i < b.len() implies a[i] == #[trigger] b[i] by {
            assert(a.subrange(0, b.len() as int)[i] == b[i]);
        }
    }
}

/// Joining: a path that begins with a slash stands by itself, any other follows the
/// base behind one slash.
pub proof fn how_paths_are_joined(base: Seq<char>, p: Seq<char>)
    ensures
        absolute(p) <==> p.len() > 0 && p[0] == '/',
        p.len() > 0 && p[0] == '/' ==> joined(base, p) == p,
        !(p.len() > 0 && p[0] == '/') && base.len() > 0 && base.last() != '/' ==> joined(base, p)
            == base + seq!['/'] + p,
        !(p.len() > 0 && p[0] == '/') && (base.len() == 0 || base.last() == '/') ==> joined(base, p)
            == base + p,
{
    assert(base.push('/') =~= base + seq!['/']);
}

/// The last name of a path is the name behind its last slash.
pub proof fn last_names(s: Seq<char>, name: Seq<char>)
    requires
        !name.contains('/'),
        name.len() > 0,
        name != seq!['.'],
    ensures
        name != seq!['.', '.'] ==> last_name(seq!['/'] + name) == Some(name) && last_name(name)
            == Some(name),
        name != seq!['.', '.'] && s.len() > 0 ==> last_name(s.push('/') + name) == Some(name),
        s.len() > 0 ==> last_name(s.push('/') + seq!['.', '.']) is None,
        last_name(seq!['/']) is None,
{
    let up = seq!['.', '.'];
    assert(!up.contains('/')) by {
        assert(up[0] != '/' && up[1] != '/');
    }
    assert(up.len() != seq!['.'].len());
    what_paths_are_made_of(s, name);
    what_paths_are_made_of(s, up);
    assert(name != root()) by {
        if name == root() {
            assert(name[0] == '/');
        }
    }
}

proof fn slashed_pieces(s: Seq<char>)
    ensures
        slashed(text::split(s, '/')) == s,
    decreases s.len(),
{
    text::split_at_its_last(s, '/');
    split_nonempty(s, '/');
    if s.contains('/') {
        let k = text::last_index(s, '/');
        slashed_pieces(s.take(k));
        split_nonempty(s.take(k), '/');
        let x = text::split(s.take(k), '/');
        assert(text::split(s, '/').drop_last() =~= x);
    }
}

proof fn names_passed(x: Seq<Seq<char>>, y: Seq<Seq<char>>)
    requires
        y.len() > 0,
        is_name(y[0]),
    ensures
        from_name(past_names(x + y, names(x).len() as int)) == y,
    decreases x.len(),
{
    if x.len() == 0 {
        assert(x + y =~= y);
        assert(names(x).len() == 0);
    } else {
        let t = x.subrange(1, x.len() as int);
        let one = seq![x[0]];
        names_passed(t, y);
        names_concat(one, t);
        assert(one + t =~= x);
        assert(one.drop_last() =~= Seq::<Seq<char>>::empty());
        reveal_with_fuel(names, 2);
        assert(names(one).len() == if is_name(x[0]) {
            1int
        } else {
            0int
        });
        assert((x + y).subrange(1, (x + y).len() as int) =~= t + y);
        assert((x + y)[0] == x[0]);
        if names(x).len() == 0 {
            assert(past_names(x + y, 0) == x + y);
            assert(past_names(t + y, 0) == t + y);
        }
    }
}

/// What lies below a directory is what follows behind it.
pub proof fn what_follows_a_directory(base: Seq<char>, rest: Seq<char>)
    requires
        base.len() > 0,
        rest.len() > 0,
        text::split(rest, '/')[0].len() > 0,
        text::split(rest, '/')[0] != seq!['.'],
        text::split(rest, '/').last().len() > 0,
        text::split(rest, '/').last() != seq!['.'],
    ensures
        tail_text(base.push('/') + rest, parts(base).len() as int) == rest,
        under(parts(base.push('/') + rest), parts(base)),
{
    let s = base.push('/') + rest;
    let x = text::split(base, '/');
    let y = text::split(rest, '/');
    text::split_cuts_each_side(base, rest, '/');
    split_nonempty(base, '/');
    split_nonempty(rest, '/');
    names_concat(x, y);
    assert(s[0] == base[0]);
    assert((x + y)[0] == x[0]);
    assert(leading(s) == leading(base));
    assert(parts(s) =~= parts(base) + names(y));
    assert(parts(s).subrange(0, parts(base).len() as int) =~= parts(base));
    let l = leading(base).len() as int;
    let b = x.subrange(l, x.len() as int);
    assert((x + y).subrange(l, (x + y).len() as int) =~= b + y);
    if l == 1 {
        if absolute(base) {
            begins_blank(base);
        }
        let one = seq![x[0]];
        assert(one + b =~= x);
        names_concat(one, b);
        assert(one.drop_last() =~= Seq::<Seq<char>>::empty());
        reveal_with_fuel(names, 2);
        assert(!is_name(x[0]));
        assert(names(one).len() == 0);
    } else {
        assert(b =~= x);
    }
    assert(names(b).len() == parts(base).len() - l);
    names_passed(b, y);
    assert(to_name(y) == y);
    slashed_pieces(rest);
    if parts(base).len() == 0 {
        assert(l == 0);
        has_a_part(base);
    }
}

proof fn begins_blank(s: Seq<char>)
    requires
        absolute(s),
    ensures
        text::split(s, '/')[0].len() == 0,
{
    let none = Seq::<char>::empty();
    let t = s.subrange(1, s.len() as int);
    assert(none.push('/') + t =~= s);
    text::split_cuts_each_side(none, t, '/');
    assert(text::split(none, '/') =~= seq![none]);
}

/// A path that is not empty has a component.
pub proof fn has_a_part(s: Seq<char>)
    requires
        s.len() > 0,
    ensures
        parts(s).len() > 0,
{
    if !absolute(s) {
        let k = text::first_index(s, '/');
        text::first_index_is_first(s, '/');
        let a = s.take(k);
        if k < s.len() {
            let b = s.subrange(k + 1, s.len() as int);
            assert(a.push('/') + b =~= s);
            text::split_cuts_each_side(a, b, '/');
            names_concat(text::split(a, '/'), text::split(b, '/'));
        } else {
            assert(a =~= s);
        }
        assert(!a.contains('/')) by {
            if a.contains('/') {
                let i = choose|i: int| 0 <= i < a.len() && a[i] == '/';
                assert(s[i] == '/');
            }
        }
        what_paths_are_made_of(a, a);
        text::split_cuts_at_separators(a, a, '/');
        assert(text::split(s, '/')[0] == a);
        assert(a.len() > 0) by {
            if k == 0 {
                assert(s[0] == '/');
            }
        }
        let one = seq![a];
        assert(one.drop_last() =~= Seq::<Seq<char>>::empty());
        reveal_with_fuel(names, 2);
        if a != current() {
            assert(names(one).len() == 1);
        }
    }
}

/// Seen from nowhere a path is itself.
pub proof fn paths_seen_from_nowhere(rest: Seq<char>)
    requires
        rest.len() > 0,
        text::split(rest, '/')[0].len() > 0,
        text::split(rest, '/')[0] != seq!['.'],
        text::split(rest, '/').last().len() > 0,
        text::split(rest, '/').last() != seq!['.'],
    ensures
        tail_text(rest, 0) == rest,
        tail_text(seq!['/'] + rest, 0) == seq!['/'] + rest,
        tail_text(seq!['/'], 0) == seq!['/'],
{
    let none = Seq::<char>::empty();
    let y = text::split(rest, '/');
    split_nonempty(rest, '/');
    slashed_pieces(rest);
    if absolute(rest) {
        begins_blank(rest);
    }
    assert(y.subrange(0, y.len() as int) =~= y);
    assert(to_name(y) == y);
    assert(none.push('/') + rest =~= seq!['/'] + rest);
    assert(none.push('/') + none =~= seq!['/']);
    text::split_cuts_each_side(none, rest, '/');
    text::split_cuts_each_side(none, none, '/');
    assert(text::split(none, '/') =~= seq![none]);
    let x = seq![none] + y;
    assert(x.subrange(1, x.len() as int) =~= y);
    assert(none.push('/') + rest == seq!['/'] + rest);
    let r = seq![none] + seq![none];
    assert(r.subrange(1, 2) =~= seq![none]);
    assert(seq![none].drop_last() =~= Seq::<Seq<char>>::empty());
    reveal_with_fuel(to_name, 2);
    assert(to_name(seq![none]).len() == 0);
}

} // verus!
