//! The order of paths, by components.
use crate::native;
use crate::native::Style;
use crate::path;
use crate::text;
use vstd::prelude::*;

verus! {

/// Lexicographic comparison by character: negative, zero or positive.
pub open spec fn text_order(a: Seq<char>, b: Seq<char>) -> int
    decreases a.len(),
{
    if a.len() == 0 {
        if b.len() == 0 {
            0
        } else {
            -1
        }
    } else if b.len() == 0 {
        1
    } else if a[0] < b[0] {
        -1
    } else if a[0] > b[0] {
        1
    } else {
        text_order(a.subrange(1, a.len() as int), b.subrange(1, b.len() as int))
    }
}

/// Drives and shares come first, then the root, then `.`, then `..`, then names.
pub open spec fn rank(c: Seq<char>) -> int {
    if native::is_prefix(c) {
        0
    } else if c == path::root() {
        1
    } else if c == path::current() {
        2
    } else if c == path::parent() {
        3
    } else {
        4
    }
}

pub open spec fn component_order(a: Seq<char>, b: Seq<char>) -> int {
    if rank(a) < rank(b) {
        -1
    } else if rank(a) > rank(b) {
        1
    } else if 0 < rank(a) && rank(a) < 4 {
        0
    } else {
        text_order(a, b)
    }
}

/// Lexicographic comparison by component.
pub open spec fn path_order(a: Seq<Seq<char>>, b: Seq<Seq<char>>) -> int
    decreases a.len(),
{
    if a.len() == 0 {
        if b.len() == 0 {
            0
        } else {
            -1
        }
    } else if b.len() == 0 {
        1
    } else if component_order(a[0], b[0]) != 0 {
        component_order(a[0], b[0])
    } else {
        path_order(a.subrange(1, a.len() as int), b.subrange(1, b.len() as int))
    }
}

/// The order of texts is total and transitive.
pub proof fn text_order_laws(a: Seq<char>, b: Seq<char>, c: Seq<char>)
    ensures
        text_order(a, b) == 0 <==> a == b,
        text_order(a, b) == -text_order(b, a),
        -1 <= text_order(a, b) <= 1,
        text_order(a, b) < 0 && text_order(b, c) < 0 ==> text_order(a, c) < 0,
    decreases a.len(),
{
    if a.len() > 0 && b.len() > 0 {
        let at = a.subrange(1, a.len() as int);
        let bt = b.subrange(1, b.len() as int);
        let ct = if c.len() > 0 {
            c.subrange(1, c.len() as int)
        } else {
            c
        };
        text_order_laws(at, bt, ct);
        if a[0] == b[0] && at == bt {
            assert(a =~= b) by {
                assert forall|i: int| 0 <= i < a.len() implies a[i] == b[i] by {
                    if i > 0 {
                        assert(at[i - 1] == bt[i - 1]);
                    }
                }
            }
        }
    } else if a.len() == 0 && b.len() == 0 {
        assert(a =~= b);
    }
}

proof fn component_order_laws(a: Seq<char>, b: Seq<char>, c: Seq<char>)
    ensures
        component_order(a, b) == 0 <==> a == b,
        component_order(a, b) == -component_order(b, a),
        component_order(a, b) < 0 && component_order(b, c) < 0 ==> component_order(a, c) < 0,
{
    text_order_laws(a, b, c);
    text_order_laws(b, a, c);
}

/// The order is total and transitive, and only equal components compare equal.
pub proof fn path_order_laws(a: Seq<Seq<char>>, b: Seq<Seq<char>>, c: Seq<Seq<char>>)
    ensures
        path_order(a, b) == 0 <==> a == b,
        path_order(a, b) == -path_order(b, a),
        path_order(a, b) < 0 && path_order(b, c) < 0 ==> path_order(a, c) < 0,
    decreases a.len(),
{
    if a.len() > 0 && b.len() > 0 {
        let at = a.subrange(1, a.len() as int);
        let bt = b.subrange(1, b.len() as int);
        let ct = if c.len() > 0 {
            c.subrange(1, c.len() as int)
        } else {
            c
        };
        let c0 = if c.len() > 0 {
            c[0]
        } else {
            a[0]
        };
        component_order_laws(a[0], b[0], c0);
        component_order_laws(b[0], c0, a[0]);
        component_order_laws(a[0], c0, b[0]);
        path_order_laws(at, bt, ct);
        if a[0] == b[0] && at == bt {
            assert(a =~= b) by {
                assert forall|i: int| 0 <= i < a.len() implies a[i] == b[i] by {
                    if i > 0 {
                        assert(at[i - 1] == bt[i - 1]);
                    }
                }
            }
        }
    } else if a.len() == 0 && b.len() == 0 {
        assert(a =~= b);
    }
}

/// Compares two texts: negative, zero or positive.
pub fn compare_text(a: &str, b: &str) -> (r: i8)
    ensures
        r == text_order(a@, b@),
        -1 <= r <= 1,
{
    let x = text::chars_of(a);
    let y = text::chars_of(b);
    let mut i: usize = 0;
    assert(x@.subrange(0, x@.len() as int) =~= x@);
    assert(y@.subrange(0, y@.len() as int) =~= y@);
    while i < x.len() && i < y.len()
        invariant
            i <= x.len(),
            i <= y.len(),
            x@ == a@,
            y@ == b@,
            text_order(a@, b@) == text_order(
                x@.subrange(i as int, x@.len() as int),
                y@.subrange(i as int, y@.len() as int),
            ),
        decreases x.len() - i,
    {
        if x[i] < y[i] {
            return -1;
        }
        if x[i] > y[i] {
            return 1;
        }
        assert(x@.subrange(i as int, x@.len() as int).subrange(1, x@.len() - i) =~= x@.subrange(
            i + 1,
            x@.len() as int,
        ));
        assert(y@.subrange(i as int, y@.len() as int).subrange(1, y@.len() - i) =~= y@.subrange(
            i + 1,
            y@.len() as int,
        ));
        i += 1;
    }
    if i < y.len() {
        -1
    } else if i < x.len() {
        1
    } else {
        0
    }
}

fn component_rank(c: &str) -> (r: u8)
    ensures
        r == rank(c@),
{
    proof {
        reveal_strlit("/");
        reveal_strlit(".");
        reveal_strlit("..");
        assert("/"@ =~= path::root());
        assert("."@ =~= path::current());
        assert(".."@ =~= path::parent());
    }
    if native::names_prefix(c) {
        0
    } else if text::same(c, "/") {
        1
    } else if text::same(c, ".") {
        2
    } else if text::same(c, "..") {
        3
    } else {
        4
    }
}

/// Compares two paths, given by their components: negative, zero or positive.
pub fn compare(a: &Vec<String>, b: &Vec<String>) -> (r: i8)
    ensures
        r == path_order(a.deep_view(), b.deep_view()),
        -1 <= r <= 1,
{
    let ghost x = a.deep_view();
    let ghost y = b.deep_view();
    let mut i: usize = 0;
    assert(x.subrange(0, x.len() as int) =~= x);
    assert(y.subrange(0, y.len() as int) =~= y);
    while i < a.len() && i < b.len()
        invariant
            i <= a.len(),
            i <= b.len(),
            x == a.deep_view(),
            y == b.deep_view(),
            path_order(x, y) == path_order(
                x.subrange(i as int, x.len() as int),
                y.subrange(i as int, y.len() as int),
            ),
        decreases a.len() - i,
    {
        assert(x[i as int] == a@[i as int]@);
        assert(y[i as int] == b@[i as int]@);
        let s = a[i].as_str();
        let t = b[i].as_str();
        let p: u8 = component_rank(s);
        let q: u8 = component_rank(t);
        if p < q {
            return -1;
        }
        if p > q {
            return 1;
        }
        if p == 0 || p == 4 {
            let o: i8 = compare_text(s, t);
            if o != 0 {
                return o;
            }
        }
        assert(x.subrange(i as int, x.len() as int).subrange(1, x.len() - i) =~= x.subrange(
            i + 1,
            x.len() as int,
        ));
        assert(y.subrange(i as int, y.len() as int).subrange(1, y.len() - i) =~= y.subrange(
            i + 1,
            y.len() as int,
        ));
        i += 1;
    }
    if i < b.len() {
        -1
    } else if i < a.len() {
        1
    } else {
        0
    }
}

/// The components of a path as they are compared.
pub open spec fn sort_key(style: Style, p: Seq<char>) -> Seq<Seq<char>> {
    native::key(style, native::parts(style, p))
}

/// The paths go strictly upwards.
pub open spec fn ascending(style: Style, paths: Seq<Seq<char>>) -> bool {
    forall|i: int, j: int|
        0 <= i < j < paths.len() ==> path_order(
            sort_key(style, #[trigger] paths[i]),
            sort_key(style, #[trigger] paths[j]),
        ) < 0
}

/// `p` is the first of `all` with its components.
pub open spec fn first_of_its_kind(style: Style, all: Seq<Seq<char>>, p: Seq<char>) -> bool {
    exists|i: int|
        0 <= i < all.len() && #[trigger] all[i] == p && forall|j: int|
            0 <= j < i ==> sort_key(style, #[trigger] all[j]) != sort_key(style, p)
}

/// `sorted` holds the paths of `all` in order, and of those with the same
/// components the first.
pub open spec fn sorted_once(style: Style, sorted: Seq<Seq<char>>, all: Seq<Seq<char>>) -> bool {
    &&& ascending(style, sorted)
    &&& forall|p: Seq<char>| #[trigger] sorted.contains(p) <==> first_of_its_kind(style, all, p)
}

/// Adds `p` to an ascending list, unless a path with its components is there.
fn insert_path(
    style: Style,
    keys: &mut Vec<Vec<String>>,
    paths: &mut Vec<String>,
    p: &str,
    Ghost(all): Ghost<Seq<Seq<char>>>,
)
    requires
        old(keys)@.len() == old(paths)@.len(),
        forall|i: int|
            0 <= i < old(keys)@.len() ==> (#[trigger] old(keys)@[i]).deep_view() == sort_key(
                style,
                old(paths)@[i]@,
            ),
        sorted_once(style, old(paths).deep_view(), all),
    ensures
        final(keys)@.len() == final(paths)@.len(),
        forall|i: int|
            0 <= i < final(keys)@.len() ==> (#[trigger] final(keys)@[i]).deep_view() == sort_key(
                style,
                final(paths)@[i]@,
            ),
        sorted_once(style, final(paths).deep_view(), all.push(p@)),
{
    let ghost m = paths.deep_view();
    let ghost pk = sort_key(style, p@);
    let key = native::path_key(style, p);
    let mut lo: usize = 0;
    let mut hi: usize = keys.len();
    while lo < hi
        invariant
            lo <= hi <= keys.len(),
            keys@.len() == m.len(),
            pk == key.deep_view(),
            ascending(style, m),
            forall|i: int|
                0 <= i < keys@.len() ==> (#[trigger] keys@[i]).deep_view() == sort_key(style, m[i]),
            forall|i: int| 0 <= i < lo ==> path_order(sort_key(style, #[trigger] m[i]), pk) < 0,
            forall|i: int| hi <= i < m.len() ==> path_order(sort_key(style, #[trigger] m[i]), pk) >= 0,
        decreases hi - lo,
    {
        let mid: usize = lo + (hi - lo) / 2;
        let o: i8 = compare(&keys[mid], &key);
        proof {
            assert(keys@[mid as int].deep_view() == sort_key(style, m[mid as int]));
            assert forall|i: int| 0 <= i < m.len() implies {
                &&& i <= mid && o < 0 ==> path_order(sort_key(style, #[trigger] m[i]), pk) < 0
                &&& i >= mid && o >= 0 ==> path_order(sort_key(style, m[i]), pk) >= 0
            } by {
                path_order_laws(sort_key(style, m[i]), sort_key(style, m[mid as int]), pk);
                path_order_laws(sort_key(style, m[mid as int]), sort_key(style, m[i]), pk);
            }
        }
        if o < 0 {
            lo = mid + 1;
        } else {
            hi = mid;
        }
    }
    let found = lo < keys.len() && compare(&keys[lo], &key) == 0;
    if found {
        proof {
            assert(keys@[lo as int].deep_view() == sort_key(style, m[lo as int]));
            path_order_laws(sort_key(style, m[lo as int]), pk, pk);
            assert(m.contains(m[lo as int]));
            present_adds_nothing(style, m, all, p@, lo as int);
        }
        return;
    }
    proof {
        if lo < keys.len() {
            assert(keys@[lo as int].deep_view() == sort_key(style, m[lo as int]));
        }
        assert forall|i: int| 0 <= i < m.len() implies {
            &&& i < lo ==> path_order(sort_key(style, #[trigger] m[i]), pk) < 0
            &&& i >= lo ==> path_order(pk, sort_key(style, m[i])) < 0
        } by {
            path_order_laws(sort_key(style, m[i]), pk, pk);
            if i >= lo {
                path_order_laws(sort_key(style, m[lo as int]), sort_key(style, m[i]), pk);
                path_order_laws(sort_key(style, m[lo as int]), pk, sort_key(style, m[i]));
                path_order_laws(pk, sort_key(style, m[lo as int]), sort_key(style, m[i]));
            }
        }
        absent_adds_one(style, m, all, p@, lo as int);
    }
    keys.insert(lo, key);
    paths.insert(lo, p.to_owned());
    assert(paths.deep_view() =~= m.insert(lo as int, p@));
}

proof fn present_adds_nothing(
    style: Style,
    m: Seq<Seq<char>>,
    all: Seq<Seq<char>>,
    p: Seq<char>,
    at: int,
)
    requires
        sorted_once(style, m, all),
        0 <= at < m.len(),
        sort_key(style, m[at]) == sort_key(style, p),
    ensures
        sorted_once(style, m, all.push(p)),
{
    let next = all.push(p);
    assert(m.contains(m[at]));
    assert(first_of_its_kind(style, all, m[at]));
    assert forall|q: Seq<char>| #[trigger] m.contains(q) <==> first_of_its_kind(style, next, q) by {
        if m.contains(q) {
            let i = choose|i: int|
                0 <= i < all.len() && #[trigger] all[i] == q && forall|j: int|
                    0 <= j < i ==> sort_key(style, #[trigger] all[j]) != sort_key(style, q);
            assert(next[i] == q);
            assert forall|j: int| 0 <= j < i implies sort_key(style, #[trigger] next[j])
                != sort_key(style, q) by {
                assert(next[j] == all[j]);
            }
        }
        if first_of_its_kind(style, next, q) {
            let i = choose|i: int|
                0 <= i < next.len() && #[trigger] next[i] == q && forall|j: int|
                    0 <= j < i ==> sort_key(style, #[trigger] next[j]) != sort_key(style, q);
            if i == all.len() {
                let k = choose|k: int|
                    0 <= k < all.len() && #[trigger] all[k] == m[at] && forall|j: int|
                        0 <= j < k ==> sort_key(style, #[trigger] all[j]) != sort_key(style, m[at]);
                assert(sort_key(style, next[k]) == sort_key(style, q));
            } else {
                assert(all[i] == q);
                assert forall|j: int| 0 <= j < i implies sort_key(style, #[trigger] all[j])
                    != sort_key(style, q) by {
                    assert(next[j] == all[j]);
                }
            }
        }
    }
}

proof fn absent_adds_one(
    style: Style,
    m: Seq<Seq<char>>,
    all: Seq<Seq<char>>,
    p: Seq<char>,
    at: int,
)
    requires
        sorted_once(style, m, all),
        0 <= at <= m.len(),
        forall|i: int|
            0 <= i < m.len() ==> {
                &&& i < at ==> path_order(sort_key(style, #[trigger] m[i]), sort_key(style, p)) < 0
                &&& i >= at ==> path_order(sort_key(style, p), sort_key(style, m[i])) < 0
            },
    ensures
        sorted_once(style, m.insert(at, p), all.push(p)),
{
    let next = all.push(p);
    let n = m.insert(at, p);
    let pk = sort_key(style, p);
    assert forall|i: int| 0 <= i < m.len() implies sort_key(style, #[trigger] m[i]) != pk by {
        path_order_laws(sort_key(style, m[i]), pk, pk);
    }
    assert(forall|j: int| 0 <= j < all.len() ==> sort_key(style, #[trigger] all[j]) != pk) by {
        if exists|j: int| 0 <= j < all.len() && sort_key(style, #[trigger] all[j]) == pk {
            let j = choose|j: int| 0 <= j < all.len() && sort_key(style, #[trigger] all[j]) == pk;
            let k = least_with(style, all, pk, j);
            assert(first_of_its_kind(style, all, all[k]));
            assert(m.contains(all[k]));
            let i = choose|i: int| 0 <= i < m.len() && m[i] == all[k];
            assert(sort_key(style, m[i]) == pk);
        }
    }
    assert forall|i: int, j: int| 0 <= i < j < n.len() implies path_order(
        sort_key(style, #[trigger] n[i]),
        sort_key(style, #[trigger] n[j]),
    ) < 0 by {
        let a = if i < at {
            i
        } else {
            i - 1
        };
        let b = if j < at {
            j
        } else {
            j - 1
        };
        if i != at {
            assert(n[i] == m[a]);
        }
        if j != at {
            assert(n[j] == m[b]);
        }
    }
    assert forall|q: Seq<char>| #[trigger] n.contains(q) <==> first_of_its_kind(style, next, q) by {
        if n.contains(q) {
            let x = choose|x: int| 0 <= x < n.len() && n[x] == q;
            if x == at {
                assert(next[all.len() as int] == q);
                assert forall|j: int| 0 <= j < all.len() implies sort_key(style, #[trigger] next[j])
                    != sort_key(style, q) by {
                    assert(next[j] == all[j]);
                }
            } else {
                assert(m.contains(q)) by {
                    if x < at {
                        assert(m[x] == q);
                    } else {
                        assert(m[x - 1] == q);
                    }
                }
                let i = choose|i: int|
                    0 <= i < all.len() && #[trigger] all[i] == q && forall|j: int|
                        0 <= j < i ==> sort_key(style, #[trigger] all[j]) != sort_key(style, q);
                assert(next[i] == q);
                assert forall|j: int| 0 <= j < i implies sort_key(style, #[trigger] next[j])
                    != sort_key(style, q) by {
                    assert(next[j] == all[j]);
                }
            }
        }
        if first_of_its_kind(style, next, q) {
            let i = choose|i: int|
                0 <= i < next.len() && #[trigger] next[i] == q && forall|j: int|
                    0 <= j < i ==> sort_key(style, #[trigger] next[j]) != sort_key(style, q);
            if i == all.len() {
                assert(n[at] == q);
            } else {
                assert(all[i] == q);
                assert forall|j: int| 0 <= j < i implies sort_key(style, #[trigger] all[j])
                    != sort_key(style, q) by {
                    assert(next[j] == all[j]);
                }
                assert(m.contains(q));
                let x = choose|x: int| 0 <= x < m.len() && m[x] == q;
                if x < at {
                    assert(n[x] == q);
                } else {
                    assert(n[x + 1] == q);
                }
            }
        }
    }
}

proof fn least_with(style: Style, all: Seq<Seq<char>>, key: Seq<Seq<char>>, j: int) -> (k: int)
    requires
        0 <= j < all.len(),
        sort_key(style, all[j]) == key,
    ensures
        0 <= k <= j,
        sort_key(style, all[k]) == key,
        forall|i: int| 0 <= i < k ==> sort_key(style, #[trigger] all[i]) != key,
    decreases j,
{
    if exists|i: int| 0 <= i < j && sort_key(style, #[trigger] all[i]) == key {
        let i = choose|i: int| 0 <= i < j && sort_key(style, #[trigger] all[i]) == key;
        least_with(style, all, key, i)
    } else {
        j
    }
}

/// The paths in order, each once.
pub fn sort_once(style: Style, all: &Vec<String>) -> (r: Vec<String>)
    ensures
        sorted_once(style, r.deep_view(), all.deep_view()),
{
    let ghost m = all.deep_view();
    let mut keys: Vec<Vec<String>> = Vec::new();
    let mut r: Vec<String> = Vec::new();
    let mut i: usize = 0;
    assert(r.deep_view() =~= Seq::<Seq<char>>::empty());
    while i < all.len()
        invariant
            m == all.deep_view(),
            i <= all.len(),
            keys@.len() == r@.len(),
            forall|k: int|
                0 <= k < keys@.len() ==> (#[trigger] keys@[k]).deep_view() == sort_key(style, r@[k]@),
            sorted_once(style, r.deep_view(), m.take(i as int)),
        decreases all.len() - i,
    {
        assert(m[i as int] == all@[i as int]@);
        insert_path(style, &mut keys, &mut r, all[i].as_str(), Ghost(m.take(i as int)));
        assert(m.take(i as int).push(m[i as int]) =~= m.take(i + 1));
        i += 1;
    }
    assert(m.take(m.len() as int) =~= m);
    r
}

/// Texts are ordered by the first character in which they differ, and a text comes
/// before those that it begins.
pub proof fn texts_are_ordered_by_first_difference(p: Seq<char>, a: Seq<char>, b: Seq<char>)
    ensures
        text_order(p + a, p + b) == text_order(a, b),
        a.len() > 0 && b.len() > 0 && a[0] < b[0] ==> text_order(a, b) == -1 && text_order(b, a)
            == 1,
        b.len() > 0 ==> text_order(p, p + b) == -1 && text_order(p + b, p) == 1,
        text_order(p, p) == 0,
    decreases p.len(),
{
    if p.len() == 0 {
        assert(p + a =~= a);
        assert(p + b =~= b);
    } else {
        let t = p.subrange(1, p.len() as int);
        texts_are_ordered_by_first_difference(t, a, b);
        assert((p + a).subrange(1, (p + a).len() as int) =~= t + a);
        assert((p + b).subrange(1, (p + b).len() as int) =~= t + b);
        assert((p + a)[0] == p[0] && (p + b)[0] == p[0]);
    }
}

/// Paths are ordered by the first component in which they differ, and a directory comes
/// before what is in it.
pub proof fn paths_are_ordered_by_first_difference(
    p: Seq<Seq<char>>,
    a: Seq<Seq<char>>,
    b: Seq<Seq<char>>,
)
    ensures
        path_order(p + a, p + b) == path_order(a, b),
        b.len() > 0 ==> path_order(p, p + b) == -1 && path_order(p + b, p) == 1,
        a.len() > 0 && b.len() > 0 && rank(a[0]) == 4 && rank(b[0]) == 4 && a[0] != b[0]
            ==> path_order(a, b) == text_order(a[0], b[0]),
    decreases p.len(),
{
    if a.len() > 0 && b.len() > 0 && rank(a[0]) == 4 && rank(b[0]) == 4 && a[0] != b[0] {
        text_order_laws(a[0], b[0], a[0]);
    }
    if p.len() == 0 {
        assert(p + a =~= a);
        assert(p + b =~= b);
    } else {
        let t = p.subrange(1, p.len() as int);
        paths_are_ordered_by_first_difference(t, a, b);
        assert((p + a).subrange(1, (p + a).len() as int) =~= t + a);
        assert((p + b).subrange(1, (p + b).len() as int) =~= t + b);
        assert((p + a)[0] == p[0] && (p + b)[0] == p[0]);
        texts_are_ordered_by_first_difference(p[0], Seq::empty(), Seq::empty());
        assert(component_order(p[0], p[0]) == 0);
    }
}

/// Sorting gives every path once: nothing that was not there, nothing twice, one of
/// every kind of spelling, the lesser first.
pub proof fn what_sorting_gives(style: Style, sorted: Seq<Seq<char>>, all: Seq<Seq<char>>, p: Seq<char>)
    requires
        sorted_once(style, sorted, all),
    ensures
        sorted.contains(p) ==> all.contains(p),
        all.contains(p) ==> exists|k: int|
            0 <= k < sorted.len() && native::same_path(style, #[trigger] sorted[k], p),
        forall|i: int, j: int|
            0 <= i < j < sorted.len() ==> !native::same_path(
                style,
                #[trigger] sorted[i],
                #[trigger] sorted[j],
            ) && path_order(
                native::key(style, native::parts(style, sorted[i])),
                native::key(style, native::parts(style, sorted[j])),
            ) == -1,
{
    if all.contains(p) {
        let n = choose|n: int| 0 <= n < all.len() && all[n] == p;
        let f = first_like(style, all, n);
        assert(all[f] == all[f]);
        assert(first_of_its_kind(style, all, all[f]));
        assert(sorted.contains(all[f]));
        let k = choose|k: int| 0 <= k < sorted.len() && sorted[k] == all[f];
        assert(native::same_path(style, sorted[k], p));
    }
    assert forall|i: int, j: int| 0 <= i < j < sorted.len() implies !native::same_path(
        style,
        #[trigger] sorted[i],
        #[trigger] sorted[j],
    ) && path_order(
        native::key(style, native::parts(style, sorted[i])),
        native::key(style, native::parts(style, sorted[j])),
    ) == -1 by {
        let a = sort_key(style, sorted[i]);
        let b = sort_key(style, sorted[j]);
        assert(path_order(a, b) < 0);
        path_order_laws(a, b, a);
        order_is_one_of_three(a, b);
        paths_are_ordered_by_first_difference(a, Seq::empty(), Seq::empty());
        assert(a + Seq::<Seq<char>>::empty() =~= a);
    }
}

proof fn order_is_one_of_three(a: Seq<Seq<char>>, b: Seq<Seq<char>>)
    ensures
        -1 <= path_order(a, b) <= 1,
    decreases a.len(),
{
    if a.len() > 0 && b.len() > 0 {
        text_order_is_one_of_three(a[0], b[0]);
        order_is_one_of_three(a.subrange(1, a.len() as int), b.subrange(1, b.len() as int));
    }
}

proof fn text_order_is_one_of_three(a: Seq<char>, b: Seq<char>)
    ensures
        -1 <= text_order(a, b) <= 1,
    decreases a.len(),
{
    if a.len() > 0 && b.len() > 0 {
        text_order_is_one_of_three(a.subrange(1, a.len() as int), b.subrange(1, b.len() as int));
    }
}

proof fn first_like(style: Style, all: Seq<Seq<char>>, n: int) -> (f: int)
    requires
        0 <= n < all.len(),
    ensures
        0 <= f <= n,
        sort_key(style, all[f]) == sort_key(style, all[n]),
        forall|j: int| 0 <= j < f ==> sort_key(style, #[trigger] all[j]) != sort_key(style, all[f]),
    decreases n,
{
    if exists|j: int| 0 <= j < n && sort_key(style, #[trigger] all[j]) == sort_key(style, all[n]) {
        let j = choose|j: int|
            0 <= j < n && sort_key(style, #[trigger] all[j]) == sort_key(style, all[n]);
        first_like(style, all, j)
    } else {
        n
    }
}

} // verus!
