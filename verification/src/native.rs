//! Paths as the system writes them: Unix paths, and Windows paths with their
//! drives, shares and two separators.
//!
//! A Windows path is a prefix, which is a drive such as `C:` or a share such as
//! `\\server\share`, and what follows it. What follows is a Unix path but for its
//! separators. So the components of a Windows path are a component for the prefix,
//! if there is one, and those of the rest. A path that begins with `\\?\` is read
//! as one on a share of a server of that name.
use crate::path;
use crate::text;
use vstd::prelude::*;
use vstd::string::*;

verus! {

/// How paths are written.
#[derive(Clone, Copy, Debug, PartialEq, Eq, Structural)]
pub enum Style {
    Unix,
    Windows,
}

impl Default for Style {
    fn default() -> (r: Self)
        ensures
            r == Style::Unix,
    {
        Style::Unix
    }
}

/// `s` with `/` for every separator of Windows.
pub open spec fn forward(s: Seq<char>) -> Seq<char> {
    s.map_values(
        |c: char|
            if c == '\\' {
                '/'
            } else {
                c
            },
    )
}

/// `s` with `\` for every `/`.
pub open spec fn backward(s: Seq<char>) -> Seq<char> {
    s.map_values(
        |c: char|
            if c == '/' {
                '\\'
            } else {
                c
            },
    )
}

pub open spec fn is_letter(c: char) -> bool {
    ('a' <= c && c <= 'z') || ('A' <= c && c <= 'Z')
}

pub open spec fn upper_letter(c: char) -> char {
    if 'a' <= c && c <= 'z' {
        ((c as u8) - 32) as char
    } else {
        c
    }
}

/// The path begins with a drive.
pub open spec fn has_drive(s: Seq<char>) -> bool {
    s.len() >= 2 && is_letter(s[0]) && s[1] == ':'
}

/// Where the share ends that a path with forward slashes begins with; 0 if it
/// begins with none.
pub open spec fn share_end(t: Seq<char>) -> int {
    if t.len() > 2 && t[0] == '/' && t[1] == '/' {
        let i = 2 + text::first_index(t.subrange(2, t.len() as int), '/');
        if 2 < i && i < t.len() {
            let j = i + 1 + text::first_index(t.subrange(i + 1, t.len() as int), '/');
            if i + 1 < j {
                j
            } else {
                0
            }
        } else {
            0
        }
    } else {
        0
    }
}

/// How many characters the prefix of a Windows path has.
pub open spec fn prefix_len(s: Seq<char>) -> int {
    if has_drive(s) {
        2
    } else {
        share_end(forward(s))
    }
}

/// The component of a prefix: the prefix as it is written, and a slash, in which no
/// name ends.
pub open spec fn prefix_part(s: Seq<char>) -> Seq<char> {
    s.take(prefix_len(s)).push('/')
}

/// What follows the prefix, as a Unix path. A share has a root of its own.
pub open spec fn body(s: Seq<char>) -> Seq<char> {
    let rest = forward(s.subrange(prefix_len(s), s.len() as int));
    if prefix_len(s) > 2 && rest.len() == 0 {
        path::root()
    } else {
        rest
    }
}

/// The components of a path.
pub open spec fn parts(style: Style, s: Seq<char>) -> Seq<Seq<char>> {
    match style {
        Style::Unix => path::parts(s),
        Style::Windows => if prefix_len(s) > 0 {
            seq![prefix_part(s)] + path::parts(body(s))
        } else {
            path::parts(body(s))
        },
    }
}

/// The path does not depend on where it is seen from.
pub open spec fn absolute(style: Style, s: Seq<char>) -> bool {
    match style {
        Style::Unix => path::absolute(s),
        Style::Windows => prefix_len(s) > 0 && path::absolute(body(s)),
    }
}

pub open spec fn is_separator(c: char) -> bool {
    c == '/' || c == '\\'
}

/// `p` seen from `base`. Under Windows a path with a drive or share stands for
/// itself, and one that only begins with a separator is seen from the drive or
/// share of `base`.
pub open spec fn joined(style: Style, base: Seq<char>, p: Seq<char>) -> Seq<char> {
    match style {
        Style::Unix => path::joined(base, p),
        Style::Windows => if prefix_len(p) > 0 {
            p
        } else if p.len() > 0 && is_separator(p[0]) {
            base.take(prefix_len(base)) + p
        } else if base.len() == 0 || is_separator(base.last()) || (base.len() == 2 && has_drive(
            base,
        )) {
            base + p
        } else {
            base.push('\\') + p
        },
    }
}

/// The component is that of a drive or share.
pub open spec fn is_prefix(c: Seq<char>) -> bool {
    c.len() > 1 && c.last() == '/'
}

/// The component of a prefix as it is compared: drives are the same in either case,
/// and shares with either separator.
pub open spec fn prefix_key(c: Seq<char>) -> Seq<char> {
    if has_drive(c) {
        c.update(0, upper_letter(c[0]))
    } else {
        forward(c)
    }
}

/// Components as they are compared.
pub open spec fn key(style: Style, ps: Seq<Seq<char>>) -> Seq<Seq<char>> {
    match style {
        Style::Unix => ps,
        Style::Windows => if ps.len() > 0 && is_prefix(ps[0]) {
            ps.update(0, prefix_key(ps[0]))
        } else {
            ps
        },
    }
}

/// `a` lies at or below `b`, both given by their components.
pub open spec fn under(style: Style, a: Seq<Seq<char>>, b: Seq<Seq<char>>) -> bool {
    path::under(key(style, a), key(style, b))
}

/// Two texts name the same path, component by component.
pub open spec fn same_path(style: Style, a: Seq<char>, b: Seq<char>) -> bool {
    key(style, parts(style, a)) == key(style, parts(style, b))
}

/// Components joined into a path.
pub open spec fn rendered(style: Style, ps: Seq<Seq<char>>) -> Seq<char> {
    match style {
        Style::Unix => path::rendered(ps),
        Style::Windows => if ps.len() > 0 && is_prefix(ps[0]) {
            ps[0].drop_last() + backward(path::rendered(ps.subrange(1, ps.len() as int)))
        } else {
            backward(path::rendered(ps))
        },
    }
}

/// The components of `p` seen from `base`, normalised.
pub open spec fn resolved(style: Style, base: Seq<char>, p: Seq<char>) -> Seq<Seq<char>> {
    path::normal(parts(style, joined(style, base, p)))
}

/// The text of the path `s` behind its first `n` components.
pub open spec fn tail_text(style: Style, s: Seq<char>, n: int) -> Seq<char> {
    match style {
        Style::Unix => path::tail_text(s, n),
        Style::Windows => if n <= 0 {
            s
        } else if prefix_len(s) > 0 {
            backward(path::tail_text(body(s), n - 1))
        } else {
            backward(path::tail_text(body(s), n))
        },
    }
}

/// The last component of a path, if it is a name other than `..`.
pub open spec fn last_name(style: Style, s: Seq<char>) -> Option<Seq<char>> {
    match style {
        Style::Unix => path::last_name(s),
        Style::Windows => path::last_name(body(s)),
    }
}

/// The path as it is matched against globs: with forward slashes.
pub open spec fn glob_text(style: Style, s: Seq<char>) -> Seq<char> {
    match style {
        Style::Unix => s,
        Style::Windows => forward(s),
    }
}

// ---------------------------------------------------------------------------
// Laws
// ---------------------------------------------------------------------------
/// What normalisation leaves: clean components, behind a prefix if there is one.
pub open spec fn clean(style: Style, ps: Seq<Seq<char>>) -> bool {
    match style {
        Style::Unix => path::clean(ps),
        Style::Windows => if ps.len() > 0 && is_prefix(ps[0]) {
            path::clean(ps.subrange(1, ps.len() as int))
        } else {
            path::clean(ps)
        },
    }
}

/// No component holds a backslash.
spec fn straight(ps: Seq<Seq<char>>) -> bool {
    forall|i: int| 0 <= i < ps.len() ==> !(#[trigger] ps[i]).contains('\\')
}

proof fn forward_is_straight(s: Seq<char>)
    ensures
        !forward(s).contains('\\'),
{
    let f = forward(s);
    if f.contains('\\') {
        let i = choose|i: int| 0 <= i < f.len() && f[i] == '\\';
        assert(f[i] != '\\');
    }
}

proof fn forward_of_backward(t: Seq<char>)
    requires
        !t.contains('\\'),
    ensures
        forward(backward(t)) == t,
{
    assert forall|i: int| 0 <= i < t.len() implies forward(backward(t))[i] == t[i] by {
        assert(t[i] != '\\');
    }
    assert(forward(backward(t)) =~= t);
}

proof fn split_is_straight(s: Seq<char>)
    requires
        !s.contains('\\'),
    ensures
        straight(text::split(s, '/')),
        text::split(s, '/').len() > 0,
    decreases s.len(),
{
    let all = text::split(s, '/');
    if s.len() > 0 {
        let front = s.drop_last();
        assert(!front.contains('\\')) by {
            if front.contains('\\') {
                let i = choose|i: int| 0 <= i < front.len() && front[i] == '\\';
                assert(s[i] == '\\');
            }
        }
        split_is_straight(front);
        let before = text::split(front, '/');
        assert(s[s.len() - 1] != '\\');
        assert forall|i: int| 0 <= i < all.len() implies !(#[trigger] all[i]).contains('\\') by {
            if i < before.len() - 1 {
                assert(all[i] == before[i]);
            } else if s.last() == '/' && i < before.len() {
                assert(all[i] == before[i]);
            } else if s.last() != '/' {
                let last = before.last();
                assert(all[i] == last.push(s.last()));
                assert(!before[before.len() - 1].contains('\\'));
                if all[i].contains('\\') {
                    let k = choose|k: int| 0 <= k < all[i].len() && all[i][k] == '\\';
                    assert(last[k] == '\\');
                }
            }
        }
    }
}

proof fn names_are_straight(pieces: Seq<Seq<char>>)
    requires
        straight(pieces),
    ensures
        straight(path::names(pieces)),
    decreases pieces.len(),
{
    if pieces.len() > 0 {
        let front = pieces.drop_last();
        assert forall|i: int| 0 <= i < front.len() implies !(#[trigger] front[i]).contains(
            '\\',
        ) by {
            assert(front[i] == pieces[i]);
        }
        names_are_straight(front);
        assert(!pieces[pieces.len() - 1].contains('\\'));
    }
}

proof fn normal_is_straight(ps: Seq<Seq<char>>)
    requires
        straight(ps),
    ensures
        straight(path::normal(ps)),
    decreases ps.len(),
{
    if ps.len() > 0 {
        let front = ps.drop_last();
        assert forall|i: int| 0 <= i < front.len() implies !(#[trigger] front[i]).contains(
            '\\',
        ) by {
            assert(front[i] == ps[i]);
        }
        normal_is_straight(front);
        assert(!ps[ps.len() - 1].contains('\\'));
        let before = path::normal(front);
        let all = path::normal(ps);
        assert forall|i: int| 0 <= i < all.len() implies !(#[trigger] all[i]).contains('\\') by {
            if i < before.len() {
                assert(all[i] == before[i]);
            }
        }
    }
}

proof fn parts_are_straight(t: Seq<char>)
    requires
        !t.contains('\\'),
    ensures
        straight(path::normal(path::parts(t))),
{
    split_is_straight(t);
    names_are_straight(text::split(t, '/'));
    let l = path::leading(t);
    let all = path::parts(t);
    assert forall|i: int| 0 <= i < all.len() implies !(#[trigger] all[i]).contains('\\') by {
        if i < l.len() {
            assert(all[i] == l[i]);
        } else {
            assert(all[i] == path::names(text::split(t, '/'))[i - l.len()]);
        }
    }
    normal_is_straight(all);
}

proof fn rendered_is_straight(ps: Seq<Seq<char>>)
    requires
        straight(ps),
    ensures
        !path::rendered(ps).contains('\\'),
    decreases ps.len(),
{
    if ps.len() > 0 {
        let front = ps.drop_last();
        assert forall|i: int| 0 <= i < front.len() implies !(#[trigger] front[i]).contains(
            '\\',
        ) by {
            assert(front[i] == ps[i]);
        }
        rendered_is_straight(front);
        let r = path::rendered(front);
        let q = ps[ps.len() - 1];
        let all = path::rendered(ps);
        if all.contains('\\') {
            let k = choose|k: int| 0 <= k < all.len() && all[k] == '\\';
            if k < r.len() && !path::absolute(q) {
                assert(r[k] == '\\');
            } else if path::absolute(q) {
                assert(q[k] == '\\');
            } else {
                let j = k - (all.len() - q.len());
                if 0 <= j {
                    assert(q[j] == '\\');
                }
            }
        }
    }
}

/// A component that stays where it is keeps its place in front.
proof fn normal_behind(x: Seq<char>, ps: Seq<Seq<char>>)
    requires
        path::fixed(x),
    ensures
        path::normal(seq![x] + ps) == seq![x] + path::normal(ps),
    decreases ps.len(),
{
    let all = seq![x] + ps;
    if ps.len() == 0 {
        assert(all =~= seq![x]);
        assert(all.drop_last() =~= Seq::<Seq<char>>::empty());
        assert(x != path::current() && x != path::parent()) by {
            assert(path::current().last() == '.');
            assert(path::parent().last() == '.');
        }
        reveal_with_fuel(path::normal, 2);
        assert(path::normal(all) =~= seq![x] + path::normal(ps));
    } else {
        normal_behind(x, ps.drop_last());
        assert(all.drop_last() =~= seq![x] + ps.drop_last());
        assert(all.last() == ps.last());
        let before = path::normal(ps.drop_last());
        let here = seq![x] + before;
        assert(path::normal(all.drop_last()) == here);
        if before.len() > 0 {
            assert(here.last() == before.last());
            assert(here.drop_last() =~= seq![x] + before.drop_last());
        } else {
            assert(here =~= seq![x]);
            assert(before =~= Seq::<Seq<char>>::empty());
        }
        assert(path::normal(all) =~= seq![x] + path::normal(ps));
    }
}

/// Normalised components of a path are clean.
pub proof fn resolved_is_clean(style: Style, s: Seq<char>)
    ensures
        clean(style, path::normal(parts(style, s))),
{
    match style {
        Style::Unix => path::resolved_is_clean(s),
        Style::Windows => {
            path::resolved_is_clean(body(s));
            let n = path::normal(path::parts(body(s)));
            if prefix_len(s) > 0 {
                prefix_part_is_prefix(s);
                normal_behind(prefix_part(s), path::parts(body(s)));
                let all = seq![prefix_part(s)] + n;
                assert(all.subrange(1, all.len() as int) =~= n);
            } else if n.len() > 0 {
                assert(!is_prefix(n[0])) by {
                    if is_prefix(n[0]) {
                        assert(n[0][n[0].len() - 1] == '/');
                        assert(n[0].contains('/'));
                        assert(n[0].len() == 1);
                    }
                }
            }
        },
    }
}

proof fn prefix_part_is_prefix(s: Seq<char>)
    requires
        prefix_len(s) > 0,
    ensures
        is_prefix(prefix_part(s)),
{
    share_range(forward(s));
    assert(prefix_part(s).len() == prefix_len(s) + 1);
}

proof fn first_index_is(s: Seq<char>, c: char, k: int)
    requires
        0 <= k <= s.len(),
        forall|i: int| 0 <= i < k ==> s[i] != c,
        k < s.len() ==> s[k] == c,
    ensures
        text::first_index(s, c) == k,
    decreases s.len(),
{
    if s.len() > 0 && s[0] != c {
        let t = s.subrange(1, s.len() as int);
        assert forall|i: int| 0 <= i < k - 1 implies t[i] != c by {
            assert(t[i] == s[i + 1]);
        }
        first_index_is(t, c, k - 1);
    }
}

proof fn first_index_found(s: Seq<char>, c: char)
    ensures
        0 <= text::first_index(s, c) <= s.len(),
        forall|i: int| 0 <= i < text::first_index(s, c) ==> s[i] != c,
        text::first_index(s, c) < s.len() ==> s[text::first_index(s, c)] == c,
    decreases s.len(),
{
    if s.len() > 0 && s[0] != c {
        let t = s.subrange(1, s.len() as int);
        first_index_found(t, c);
        assert forall|i: int| 0 <= i < text::first_index(s, c) implies s[i] != c by {
            if i > 0 {
                assert(s[i] == t[i - 1]);
            }
        }
    }
}

/// A share ends where it ended, whatever follows behind a slash.
proof fn share_stays(t: Seq<char>, more: Seq<char>)
    requires
        share_end(t) > 0,
        more.len() > 0 ==> more[0] == '/',
    ensures
        share_end(t.take(share_end(t)) + more) == share_end(t),
{
    share_range(t);
    let a = t.subrange(2, t.len() as int);
    first_index_found(a, '/');
    let i = 2 + text::first_index(a, '/');
    let b = t.subrange(i + 1, t.len() as int);
    first_index_found(b, '/');
    let j = share_end(t);
    let g = t.take(j) + more;
    let ga = g.subrange(2, g.len() as int);
    assert forall|k: int| 0 <= k < i - 2 implies ga[k] != '/' by {
        assert(ga[k] == t[k + 2]);
        assert(a[k] == t[k + 2]);
    }
    assert(a[i - 2] == t[i]);
    assert(ga[i - 2] == t[i]);
    first_index_is(ga, '/', i - 2);
    let gb = g.subrange(i + 1, g.len() as int);
    assert forall|k: int| 0 <= k < j - i - 1 implies gb[k] != '/' by {
        assert(gb[k] == t[i + 1 + k]);
        assert(b[k] == t[i + 1 + k]);
    }
    if more.len() > 0 {
        assert(gb[j - i - 1] == more[0]);
    }
    first_index_is(gb, '/', j - i - 1);
    assert(g[0] == t[0] && g[1] == t[1]);
}

/// A prefix in front of a rooted body reads back.
proof fn prefix_reads_back(s: Seq<char>, ps: Seq<Seq<char>>)
    requires
        prefix_len(s) > 0,
        path::clean(ps),
        straight(ps),
        ps.len() > 0,
        ps[0] == path::root(),
    ensures
        ({
            let all = seq![prefix_part(s)] + ps;
            &&& parts(Style::Windows, rendered(Style::Windows, all)) == all
            &&& absolute(Style::Windows, rendered(Style::Windows, all))
        }),
{
    let x = prefix_part(s);
    let all = seq![x] + ps;
    let t = path::rendered(ps);
    path::parts_of_rendered(ps);
    rendered_is_straight(ps);
    forward_of_backward(t);
    prefix_part_is_prefix(s);
    assert(all.subrange(1, all.len() as int) =~= ps);
    let head = x.drop_last();
    let r = rendered(Style::Windows, all);
    assert(r == head + backward(t));
    let k = prefix_len(s);
    assert(head =~= s.take(k));
    if has_drive(s) {
        assert(r[0] == s[0] && r[1] == s[1]);
        assert(has_drive(r));
    } else {
        let f = forward(s);
        share_range(f);
        assert(forward(r) =~= f.take(k) + t) by {
            assert forall|i: int| 0 <= i < r.len() implies forward(r)[i] == (f.take(k) + t)[i] by {
                if i >= k {
                    assert(forward(backward(t))[i - k] == t[i - k]);
                    assert(r[i] == backward(t)[i - k]);
                }
            }
        }
        share_stays(f, t);
        assert(r[0] == s[0] && r[1] == s[1]);
        assert(!has_drive(r));
    }
    assert(r.take(k) =~= s.take(k));
    assert(prefix_len(r) == head.len());
    assert(r.subrange(prefix_len(r), r.len() as int) =~= backward(t));
    assert(body(r) == t);
}

/// A normalised path reads back as the components that it was made of, and so do
/// the directories above it; under Windows this holds of absolute paths.
pub proof fn resolved_reads_back(style: Style, s: Seq<char>, n: int)
    requires
        0 <= n <= path::normal(parts(style, s)).len(),
        style == Style::Windows ==> absolute(style, s) && n >= 2,
    ensures
        ({
            let ps = path::normal(parts(style, s)).take(n);
            &&& parts(style, rendered(style, ps)) == ps
            &&& path::normal(ps) == ps
            &&& absolute(style, s) && n > 0 ==> absolute(style, rendered(style, ps))
        }),
{
    let np = path::normal(parts(style, s));
    let ps = np.take(n);
    match style {
        Style::Unix => {
            path::resolved_is_clean(s);
            clean_front(np, n);
            path::parts_of_rendered(ps);
            path::normal_of_clean(ps);
            if path::absolute(s) && n > 0 {
                path::normal_keeps_root(s);
                path::parts_of_rendered(np);
                assert(ps[0] == np[0]);
            }
        },
        Style::Windows => {
            let t = body(s);
            let x = prefix_part(s);
            let m = path::normal(path::parts(t));
            prefix_part_is_prefix(s);
            normal_behind(x, path::parts(t));
            assert(np == seq![x] + m);
            path::resolved_is_clean(t);
            assert(!t.contains('\\')) by {
                forward_is_straight(s.subrange(prefix_len(s), s.len() as int));
            }
            parts_are_straight(t);
            path::normal_keeps_root(t);
            path::parts_of_rendered(m);
            let k = m.take(n - 1);
            clean_front(m, n - 1);
            assert(straight(k)) by {
                assert forall|i: int| 0 <= i < k.len() implies !(#[trigger] k[i]).contains(
                    '\\',
                ) by {
                    assert(k[i] == m[i]);
                }
            }
            assert(k[0] == m[0]);
            assert(ps =~= seq![x] + k);
            prefix_reads_back(s, k);
            path::normal_of_clean(k);
            normal_behind(x, k);
        },
    }
}

/// Normalisation settles: normalising a normalised path changes nothing. Under
/// Windows this holds of absolute paths.
pub proof fn normalize_is_idempotent(style: Style, s: Seq<char>)
    requires
        style == Style::Windows ==> absolute(style, s),
    ensures
        ({
            let once = rendered(style, path::normal(parts(style, s)));
            rendered(style, path::normal(parts(style, once))) == once
        }),
{
    let np = path::normal(parts(style, s));
    if style == Style::Windows {
        absolute_has_two(s);
    }
    resolved_reads_back(style, s, np.len() as int);
    assert(np.take(np.len() as int) =~= np);
}

/// An absolute Windows path has a prefix and a root.
pub proof fn absolute_has_two(s: Seq<char>)
    requires
        absolute(Style::Windows, s),
    ensures
        ({
            let np = path::normal(parts(Style::Windows, s));
            &&& np.len() >= 2
            &&& np[0] == prefix_part(s)
            &&& np[1] == path::root()
        }),
{
    prefix_part_is_prefix(s);
    normal_behind(prefix_part(s), path::parts(body(s)));
    path::normal_keeps_root(body(s));
    path::resolved_is_clean(body(s));
    path::parts_of_rendered(path::normal(path::parts(body(s))));
}

/// Another text for an absolute path is absolute.
pub proof fn same_path_is_absolute(style: Style, a: Seq<char>, b: Seq<char>)
    requires
        absolute(style, a),
        same_path(style, a, b),
    ensures
        absolute(style, b),
{
    match style {
        Style::Unix => {
            path::root_first_is_absolute(a);
            path::root_first_is_absolute(b);
            assert(path::parts(a) == path::parts(b));
        },
        Style::Windows => {
            prefix_part_is_prefix(a);
            let x = key(style, parts(style, a));
            let y = key(style, parts(style, b));
            assert(x == y);
            assert(x.len() == parts(style, a).len());
            assert(y.len() == parts(style, b).len());
            assert(parts(style, a).len() == 1 + path::parts(body(a)).len());
            path::root_first_is_absolute(body(a));
            path::root_first_is_absolute(body(b));
            assert(parts(style, a)[0] == prefix_part(a));
            assert(x[1] == path::parts(body(a))[0]);
            if prefix_len(b) > 0 {
                prefix_part_is_prefix(b);
                assert(parts(style, b)[0] == prefix_part(b));
                assert(y[1] == path::parts(body(b))[0]);
            } else {
                path::first_part_is_root_or_name(body(b));
                prefix_key_is_prefix(prefix_part(a));
                let c = y[0];
                assert(c == prefix_key(prefix_part(a)));
                if is_prefix(parts(style, b)[0]) {
                    let d = parts(style, b)[0];
                    assert(d[d.len() - 1] == '/');
                    assert(d.contains('/'));
                } else {
                    assert(c[c.len() - 1] == '/');
                    assert(c.contains('/'));
                }
            }
        },
    }
}

/// The prefix of a component is compared as one.
proof fn prefix_key_is_prefix(c: Seq<char>)
    requires
        is_prefix(c),
    ensures
        is_prefix(prefix_key(c)),
        prefix_key(c).len() == c.len(),
{
    if has_drive(c) {
        assert(c.len() > 2);
    }
}

/// Normalisation and comparison do not interfere.
pub proof fn key_of_normal(style: Style, s: Seq<char>)
    ensures
        key(style, path::normal(parts(style, s))) == path::normal(key(style, parts(style, s))),
{
    if style == Style::Windows {
        let ps = path::parts(body(s));
        let n = path::normal(ps);
        if prefix_len(s) > 0 {
            let x = prefix_part(s);
            prefix_part_is_prefix(s);
            prefix_key_is_prefix(x);
            normal_behind(x, ps);
            normal_behind(prefix_key(x), ps);
            assert((seq![x] + ps).update(0, prefix_key(x)) =~= seq![prefix_key(x)] + ps);
            assert((seq![x] + n).update(0, prefix_key(x)) =~= seq![prefix_key(x)] + n);
        } else {
            path::first_part_is_root_or_name(body(s));
            if ps.len() > 0 && is_prefix(ps[0]) {
                assert(ps[0][ps[0].len() - 1] == '/');
                assert(ps[0].contains('/'));
            }
            path::resolved_is_clean(body(s));
            if n.len() > 0 && is_prefix(n[0]) {
                assert(n[0][n[0].len() - 1] == '/');
                assert(n[0].contains('/'));
            }
        }
    }
}

/// What lies below something lies below what that lies below.
pub proof fn under_is_transitive(
    style: Style,
    a: Seq<Seq<char>>,
    b: Seq<Seq<char>>,
    c: Seq<Seq<char>>,
)
    requires
        under(style, a, b),
        under(style, b, c),
    ensures
        under(style, a, c),
{
    let x = key(style, a);
    let y = key(style, b);
    let z = key(style, c);
    assert(x.subrange(0, z.len() as int) =~= y.subrange(0, z.len() as int)) by {
        assert forall|i: int| 0 <= i < z.len() implies x[i] == y[i] by {
            assert(x.subrange(0, y.len() as int)[i] == x[i]);
        }
    }
}

/// Of two directories above one path one lies at or below the other.
pub proof fn directories_above_overlap(
    style: Style,
    np: Seq<Seq<char>>,
    a: Seq<Seq<char>>,
    b: Seq<Seq<char>>,
)
    requires
        under(style, np, a),
        under(style, np, b),
    ensures
        under(style, a, b) || under(style, b, a),
{
    let n = key(style, np);
    let x = key(style, a);
    let y = key(style, b);
    if x.len() <= y.len() {
        assert(y.subrange(0, x.len() as int) =~= x) by {
            assert forall|i: int| 0 <= i < x.len() implies y[i] == x[i] by {
                assert(n.subrange(0, x.len() as int)[i] == n[i]);
                assert(n.subrange(0, y.len() as int)[i] == n[i]);
            }
        }
    } else {
        assert(x.subrange(0, y.len() as int) =~= y) by {
            assert forall|i: int| 0 <= i < y.len() implies x[i] == y[i] by {
                assert(n.subrange(0, x.len() as int)[i] == n[i]);
                assert(n.subrange(0, y.len() as int)[i] == n[i]);
            }
        }
    }
}

/// A path is seen in the same place from two spellings of one directory: whatever
/// they are under Unix, and under Windows if they are absolute.
pub proof fn seen_from_the_same_place(style: Style, a: Seq<char>, b: Seq<char>, p: Seq<char>)
    requires
        a.len() > 0,
        b.len() > 0,
        style == Style::Windows ==> absolute(style, a),
        same_path(style, a, b),
    ensures
        same_path(style, joined(style, a, p), joined(style, b, p)),
        key(style, resolved(style, a, p)) == key(style, resolved(style, b, p)),
{
    let ja = joined(style, a, p);
    let jb = joined(style, b, p);
    match style {
        Style::Unix => {
            if !path::absolute(p) {
                path::parts_of_joined(a, p);
                path::parts_of_joined(b, p);
            }
        },
        Style::Windows => {
            same_path_is_absolute(style, a, b);
            if prefix_len(p) == 0 {
                let x = prefix_part(a);
                let y = prefix_part(b);
                prefix_part_is_prefix(a);
                prefix_part_is_prefix(b);
                let ka = key(style, parts(style, a));
                let kb = key(style, parts(style, b));
                assert(ka[0] == prefix_key(x));
                assert(kb[0] == prefix_key(y));
                assert(path::parts(body(a)) =~= ka.subrange(1, ka.len() as int));
                assert(path::parts(body(b)) =~= kb.subrange(1, kb.len() as int));
                parts_seen_from(a, p);
                parts_seen_from(b, p);
                assert(key(style, parts(style, ja)) =~= key(style, parts(style, jb)));
            }
        },
    }
    key_of_normal(style, ja);
    key_of_normal(style, jb);
}

/// The components of a Windows path without a prefix, seen from an absolute one.
proof fn parts_seen_from(base: Seq<char>, p: Seq<char>)
    requires
        absolute(Style::Windows, base),
        prefix_len(p) == 0,
    ensures
        parts(Style::Windows, joined(Style::Windows, base, p)) == seq![prefix_part(base)] + (
        if p.len() > 0 && is_separator(p[0]) {
            path::parts(forward(p))
        } else {
            path::parts(body(base)) + path::names(text::split(forward(p), '/'))
        }),
{
    let j = joined(Style::Windows, base, p);
    let k = prefix_len(base);
    let f = forward(base);
    share_range(f);
    let rest = forward(base.subrange(k, base.len() as int));
    let fp = forward(p);
    if p.len() > 0 && is_separator(p[0]) {
        assert(fp[0] == '/');
        prefix_goes_on(base, p);
        assert(base.take(k) + p =~= j);
    } else {
        assert(!path::absolute(fp));
        let more = j.subrange(k, j.len() as int);
        assert(base.len() == k ==> k > 2);
        assert(j =~= base.take(k) + more);
        if base.len() == k {
            assert(more.len() > 0) by {
                if is_separator(base.last()) {
                    share_ends_in_no_slash(f);
                    assert(f[k - 1] == '/');
                }
            }
            assert(forward(more) =~= path::joined(body(base), fp)) by {
                if is_separator(base.last()) {
                    share_ends_in_no_slash(f);
                    assert(f[k - 1] == '/');
                }
                assert(more =~= seq!['\\'] + p);
            }
        } else {
            assert(rest.len() > 0);
            assert(rest.last() == forward(base)[base.len() - 1]);
            assert(forward(more) =~= path::joined(rest, fp));
            assert(more[0] == base[k]);
            assert(rest[0] == '/');
        }
        assert(is_separator(more[0]));
        prefix_goes_on(base, more);
        path::parts_of_joined(body(base), fp);
    }
}

/// A share ends where a slash or the path ends it.
proof fn share_ends_in_no_slash(t: Seq<char>)
    requires
        share_end(t) > 0,
    ensures
        t[share_end(t) - 1] != '/',
{
    let a = t.subrange(2, t.len() as int);
    let i = 2 + text::first_index(a, '/');
    let b = t.subrange(i + 1, t.len() as int);
    first_index_found(b, '/');
    let j = share_end(t);
    assert(b[j - i - 2] == t[j - 1]);
}

/// A prefix is read again in front of what begins with a separator.
proof fn prefix_goes_on(s: Seq<char>, more: Seq<char>)
    requires
        prefix_len(s) > 0,
        more.len() > 0,
        is_separator(more[0]),
    ensures
        parts(Style::Windows, s.take(prefix_len(s)) + more) == seq![prefix_part(s)] + path::parts(
            forward(more),
        ),
{
    let k = prefix_len(s);
    let f = forward(s);
    share_range(f);
    let g = s.take(k) + more;
    if has_drive(s) {
        assert(g[0] == s[0] && g[1] == s[1]);
        assert(has_drive(g));
    } else {
        assert(forward(g) =~= f.take(k) + forward(more));
        assert(forward(more)[0] == '/');
        share_stays(f, forward(more));
        assert(g[0] == s[0] && g[1] == s[1]);
        assert(!has_drive(g));
    }
    assert(prefix_len(g) == k);
    assert(g.take(k) =~= s.take(k));
    assert(prefix_part(g) == prefix_part(s));
    assert(g.subrange(k, g.len() as int) =~= more);
}

proof fn clean_front(ps: Seq<Seq<char>>, n: int)
    requires
        path::clean(ps),
        0 <= n <= ps.len(),
    ensures
        path::clean(ps.take(n)),
{
    let head = ps.take(n);
    assert forall|k: int| 0 <= k < head.len() implies {
        &&& path::is_name(#[trigger] head[k])
        &&& head[k] != path::parent()
        &&& !head[k].contains('/') || (k == 0 && head[k] == path::root())
    } by {
        assert(head[k] == ps[k]);
    }
}

// ---------------------------------------------------------------------------
// Operations
// ---------------------------------------------------------------------------
fn to_forward(s: &str) -> (r: String)
    ensures
        r@ == forward(s@),
{
    let v = text::chars_of(s);
    let mut r = String::new();
    let mut i: usize = 0;
    while i < v.len()
        invariant
            v@ == s@,
            i <= v.len(),
            r@ == forward(s@).take(i as int),
        decreases v.len() - i,
    {
        let c = v[i];
        r.push(
            if c == '\\' {
                '/'
            } else {
                c
            },
        );
        i += 1;
        assert(r@ =~= forward(s@).take(i as int));
    }
    assert(forward(s@).take(v.len() as int) =~= forward(s@));
    r
}

fn to_backward(s: &str) -> (r: String)
    ensures
        r@ == backward(s@),
{
    let v = text::chars_of(s);
    let mut r = String::new();
    let mut i: usize = 0;
    while i < v.len()
        invariant
            v@ == s@,
            i <= v.len(),
            r@ == backward(s@).take(i as int),
        decreases v.len() - i,
    {
        let c = v[i];
        r.push(
            if c == '/' {
                '\\'
            } else {
                c
            },
        );
        i += 1;
        assert(r@ =~= backward(s@).take(i as int));
    }
    assert(backward(s@).take(v.len() as int) =~= backward(s@));
    r
}

fn begins_with_drive(s: &str) -> (r: bool)
    ensures
        r == has_drive(s@),
{
    if s.unicode_len() < 2 {
        return false;
    }
    let c = s.get_char(0);
    (('a' <= c && c <= 'z') || ('A' <= c && c <= 'Z')) && s.get_char(1) == ':'
}

/// A share ends within the path, behind its two slashes.
proof fn share_range(t: Seq<char>)
    ensures
        0 <= share_end(t) <= t.len(),
        share_end(t) > 0 ==> share_end(t) > 3,
{
    if t.len() > 2 {
        let a = t.subrange(2, t.len() as int);
        first_index_found(a, '/');
        let i = 2 + text::first_index(a, '/');
        if i < t.len() {
            first_index_found(t.subrange(i + 1, t.len() as int), '/');
        }
    }
}

fn share_length(t: &str) -> (r: usize)
    ensures
        r == share_end(t@),
        r <= t@.len(),
{
    proof {
        share_range(t@);
    }
    let n: usize = t.unicode_len();
    if !(n > 2 && t.get_char(0) == '/' && t.get_char(1) == '/') {
        return 0;
    }
    let i: usize = match text::find_char(t.substring_char(2, n), '/') {
        Some(k) => 2 + k,
        None => n,
    };
    if !(2 < i && i < n) {
        return 0;
    }
    let j: usize = match text::find_char(t.substring_char(i + 1, n), '/') {
        Some(k) => i + 1 + k,
        None => n,
    };
    if i + 1 < j {
        j
    } else {
        0
    }
}

fn prefix_length(s: &str) -> (r: usize)
    ensures
        r == prefix_len(s@),
        r <= s@.len(),
{
    if begins_with_drive(s) {
        2
    } else {
        share_length(to_forward(s).as_str())
    }
}

fn body_of(s: &str) -> (r: String)
    ensures
        r@ == body(s@),
{
    let k: usize = prefix_length(s);
    let n: usize = s.unicode_len();
    let rest = to_forward(s.substring_char(k, n));
    if k > 2 && rest.as_str().is_empty() {
        proof {
            reveal_strlit("/");
            assert("/"@ =~= path::root());
        }
        "/".to_owned()
    } else {
        rest
    }
}

fn prefix_of(s: &str) -> (r: String)
    requires
        prefix_len(s@) > 0,
    ensures
        r@ == prefix_part(s@),
{
    let k: usize = prefix_length(s);
    let mut r = s.substring_char(0, k).to_owned();
    r.push('/');
    assert(r@ =~= prefix_part(s@));
    r
}

fn key_of_prefix(c: &str) -> (r: String)
    ensures
        r@ == prefix_key(c@),
{
    if begins_with_drive(c) {
        let n: usize = c.unicode_len();
        let d = c.get_char(0);
        let mut r = String::new();
        r.push(
            if 'a' <= d && d <= 'z' {
                ((d as u8) - 32) as char
            } else {
                d
            },
        );
        r.append(c.substring_char(1, n));
        assert(r@ =~= prefix_key(c@));
        r
    } else {
        to_forward(c)
    }
}

/// Components as they are compared.
pub fn key_of(style: Style, ps: Vec<String>) -> (r: Vec<String>)
    ensures
        r.deep_view() == key(style, ps.deep_view()),
{
    match style {
        Style::Unix => ps,
        Style::Windows => {
            let ghost m = ps.deep_view();
            if ps.len() > 0 && names_prefix(ps[0].as_str()) {
                assert(m[0] == ps@[0]@);
                let k = key_of_prefix(ps[0].as_str());
                let mut r = ps;
                r.set(0, k);
                assert(r.deep_view() =~= m.update(0, prefix_key(m[0])));
                return r;
            }
            if ps.len() > 0 {
                assert(m[0] == ps@[0]@);
            }
            ps
        },
    }
}

/// The components of a path as they are compared.
pub fn path_key(style: Style, s: &str) -> (r: Vec<String>)
    ensures
        r.deep_view() == key(style, parts(style, s@)),
{
    key_of(style, components(style, s))
}

/// The components of a path.
pub fn components(style: Style, s: &str) -> (r: Vec<String>)
    ensures
        r.deep_view() == parts(style, s@),
{
    match style {
        Style::Unix => path::components(s),
        Style::Windows => {
            let mut rest = path::components(body_of(s).as_str());
            if prefix_length(s) == 0 {
                return rest;
            }
            let ghost tail = rest.deep_view();
            let mut r: Vec<String> = Vec::new();
            r.push(prefix_of(s));
            r.append(&mut rest);
            assert(r.deep_view() =~= seq![prefix_part(s@)] + tail);
            r
        },
    }
}

/// The components without `.` and `..`.
pub fn normal_components(style: Style, s: &str) -> (r: Vec<String>)
    ensures
        r.deep_view() == path::normal(parts(style, s@)),
{
    path::normal_of(&components(style, s))
}

/// Whether the path does not depend on where it is seen from.
pub fn is_absolute(style: Style, s: &str) -> (r: bool)
    ensures
        r == absolute(style, s@),
{
    match style {
        Style::Unix => path::is_absolute(s),
        Style::Windows => prefix_length(s) > 0 && path::is_absolute(body_of(s).as_str()),
    }
}

fn separates(c: char) -> (r: bool)
    ensures
        r == is_separator(c),
{
    c == '/' || c == '\\'
}

/// `p` seen from `base`.
pub fn join(style: Style, base: &str, p: &str) -> (r: String)
    ensures
        r@ == joined(style, base@, p@),
{
    match style {
        Style::Unix => path::join(base, p),
        Style::Windows => {
            if prefix_length(p) > 0 {
                return p.to_owned();
            }
            if p.unicode_len() > 0 && separates(p.get_char(0)) {
                let k: usize = prefix_length(base);
                assert(base@.subrange(0, k as int) =~= base@.take(k as int));
                return base.substring_char(0, k).to_owned().concat(p);
            }
            let n: usize = base.unicode_len();
            let mut r = base.to_owned();
            if !(n == 0 || separates(base.get_char(n - 1)) || (n == 2 && begins_with_drive(base))) {
                r.push('\\');
            }
            r.append(p);
            r
        },
    }
}

/// Whether the component is that of a drive or share.
pub fn names_prefix(c: &str) -> (r: bool)
    ensures
        r == is_prefix(c@),
{
    let n: usize = c.unicode_len();
    n > 1 && c.get_char(n - 1) == '/'
}

/// Components joined into a path.
pub fn render(style: Style, ps: &Vec<String>) -> (r: String)
    ensures
        r@ == rendered(style, ps.deep_view()),
{
    match style {
        Style::Unix => path::render(ps),
        Style::Windows => {
            let ghost m = ps.deep_view();
            if ps.len() > 0 {
                let c = ps[0].as_str();
                let n: usize = c.unicode_len();
                assert(m[0] == c@);
                if names_prefix(c) {
                    let mut rest: Vec<String> = Vec::new();
                    let mut i: usize = 1;
                    assert(rest.deep_view() =~= m.subrange(1, 1));
                    while i < ps.len()
                        invariant
                            m == ps.deep_view(),
                            1 <= i <= ps.len(),
                            rest.deep_view() == m.subrange(1, i as int),
                        decreases ps.len() - i,
                    {
                        let ghost before = rest.deep_view();
                        rest.push(ps[i].clone());
                        i += 1;
                        assert(rest.deep_view() =~= before.push(m[i - 1]));
                        assert(rest.deep_view() =~= m.subrange(1, i as int));
                    }
                    assert(c@.subrange(0, n - 1) =~= c@.drop_last());
                    return c.substring_char(0, n - 1).to_owned().concat(
                        to_backward(path::render(&rest).as_str()).as_str(),
                    );
                }
            }
            to_backward(path::render(ps).as_str())
        },
    }
}

/// The path with `.` and `..` worked out from the text alone.
pub fn normalize(style: Style, s: &str) -> (r: String)
    ensures
        r@ == rendered(style, path::normal(parts(style, s@))),
{
    render(style, &normal_components(style, s))
}

/// Whether `a` lies at or below `b`, both given by their components.
pub fn is_under(style: Style, a: &Vec<String>, b: &Vec<String>) -> (r: bool)
    ensures
        r == under(style, a.deep_view(), b.deep_view()),
{
    match style {
        Style::Unix => path::is_under(a, b),
        Style::Windows => {
            let x = a.clone();
            let y = b.clone();
            assert(x.deep_view() =~= a.deep_view());
            assert(y.deep_view() =~= b.deep_view());
            path::is_under(&key_of(style, x), &key_of(style, y))
        },
    }
}

/// Whether the path `a` begins with the components of `b`.
pub fn starts_with(style: Style, a: &str, b: &str) -> (r: bool)
    ensures
        r == under(style, parts(style, a@), parts(style, b@)),
{
    path::is_under(&path_key(style, a), &path_key(style, b))
}

/// Whether two texts name the same path, component by component.
pub fn same(style: Style, a: &str, b: &str) -> (r: bool)
    ensures
        r == same_path(style, a@, b@),
{
    let x = path_key(style, a);
    let y = path_key(style, b);
    let r = x.len() == y.len() && path::is_under(&x, &y);
    proof {
        let u = x.deep_view();
        let v = y.deep_view();
        if r {
            assert(v =~= u);
        } else if u == v {
            assert(u.subrange(0, v.len() as int) =~= v);
        }
    }
    r
}

/// What is left of the path `a` behind the components of `b`, if it begins with
/// them.
pub fn strip_prefix(style: Style, a: &str, b: &str) -> (r: Option<String>)
    ensures
        match r {
            Some(t) => under(style, parts(style, a@), parts(style, b@)) && t@ == tail_text(
                style,
                a@,
                parts(style, b@).len() as int,
            ),
            None => !under(style, parts(style, a@), parts(style, b@)),
        },
{
    match style {
        Style::Unix => path::strip_prefix(a, b),
        Style::Windows => {
            let x = path_key(style, a);
            let y = path_key(style, b);
            if !path::is_under(&x, &y) {
                return None;
            }
            if y.len() == 0 {
                return Some(a.to_owned());
            }
            let rest = body_of(a);
            let n: usize = if prefix_length(a) > 0 {
                y.len() - 1
            } else {
                y.len()
            };
            Some(to_backward(path::tail_of(rest.as_str(), n).as_str()))
        },
    }
}

/// The last component of the path, if it is a name other than `..`.
pub fn file_name(style: Style, s: &str) -> (r: Option<String>)
    ensures
        r.deep_view() == last_name(style, s@),
{
    match style {
        Style::Unix => path::file_name(s),
        Style::Windows => path::file_name(body_of(s).as_str()),
    }
}

/// The path as it is matched against globs.
pub fn for_globs(style: Style, s: &str) -> (r: String)
    ensures
        r@ == glob_text(style, s@),
{
    match style {
        Style::Unix => s.to_owned(),
        Style::Windows => to_forward(s),
    }
}

/// Where a path is on Windows does not rest on how its separators are written, nor on
/// whether the letter of its drive is a capital one.
pub proof fn windows_paths_have_many_spellings(
    small: char,
    capital: char,
    a: Seq<char>,
    b: Seq<char>,
)
    requires
        'a' <= small && small <= 'z',
        capital as u32 + 32 == small as u32,
        a.len() == b.len(),
        forall|i: int|
            0 <= i < a.len() ==> #[trigger] b[i] == if a[i] == '\\' {
                '/'
            } else {
                a[i]
            },
    ensures
        same_path(Style::Windows, seq![small, ':'] + a, seq![capital, ':'] + b),
        absolute(Style::Windows, seq![small, ':'] + a) <==> a.len() > 0 && (a[0] == '/' || a[0]
            == '\\'),
{
    let x = seq![small, ':'] + a;
    let y = seq![capital, ':'] + b;
    assert(has_drive(x) && has_drive(y));
    assert(x.subrange(2, x.len() as int) =~= a);
    assert(y.subrange(2, y.len() as int) =~= b);
    assert(forward(a) =~= b);
    assert(forward(b) =~= b);
    assert(body(x) == b && body(y) == b);
    assert(x.take(2) =~= seq![small, ':']);
    assert(y.take(2) =~= seq![capital, ':']);
    assert(prefix_key(prefix_part(x)) =~= prefix_key(prefix_part(y)));
    assert(key(Style::Windows, parts(Style::Windows, x)) =~= key(
        Style::Windows,
        parts(Style::Windows, y),
    ));
}

/// On Unix a path is what its characters say: the same path is one with the same
/// components, and one below another has all of its components first.
pub proof fn unix_paths_are_compared_as_they_stand(a: Seq<char>, b: Seq<char>)
    ensures
        same_path(Style::Unix, a, b) <==> path::parts(a) == path::parts(b),
        under(Style::Unix, parts(Style::Unix, a), parts(Style::Unix, b)) <==> path::parts(b).len()
            <= path::parts(a).len() && forall|i: int|
            0 <= i < path::parts(b).len() ==> path::parts(a)[i] == #[trigger] path::parts(b)[i],
        absolute(Style::Unix, a) <==> a.len() > 0 && a[0] == '/',
        joined(Style::Unix, a, b) == path::joined(a, b),
        resolved(Style::Unix, a, b) == path::normal(path::parts(path::joined(a, b))),
        glob_text(Style::Unix, a) == a,
{
    path::below_is_by_components(path::parts(a), path::parts(b));
}

/// A path is below a directory if it is in it, whatever the letter of its drive is
/// written as; what lies on another drive is not below it.
pub proof fn below_on_windows(a: Seq<Seq<char>>, b: Seq<Seq<char>>)
    requires
        a.len() > 0,
        b.len() > 0,
    ensures
        under(Style::Windows, a, b) <==> {
            &&& b.len() <= a.len()
            &&& key(Style::Windows, a)[0] == key(Style::Windows, b)[0]
            &&& forall|i: int| 1 <= i < b.len() ==> a[i] == #[trigger] b[i]
        },
{
    let x = key(Style::Windows, a);
    let y = key(Style::Windows, b);
    path::below_is_by_components(x, y);
    assert(x.len() == a.len() && y.len() == b.len());
    assert forall|i: int| 1 <= i < a.len() implies #[trigger] x[i] == a[i] by {}
    assert forall|i: int| 1 <= i < b.len() implies #[trigger] y[i] == b[i] by {}
    if under(Style::Windows, a, b) {
        assert forall|i: int| 1 <= i < b.len() implies a[i] == #[trigger] b[i] by {
            assert(x[i] == y[i]);
        }
        assert(x[0] == y[0]);
    }
}

/// Joining on Windows: a path with a drive or a share stands by itself, one that begins
/// with a separator keeps the drive of the base, any other follows the base.
pub proof fn how_windows_paths_are_joined(
    letter: char,
    base: Seq<char>,
    p: Seq<char>,
    rest: Seq<char>,
)
    requires
        'a' <= letter && letter <= 'z' || 'A' <= letter && letter <= 'Z',
        p.len() > 0,
        p[0] != '/' && p[0] != '\\',
        p.len() > 1 ==> p[1] != ':',
    ensures
        joined(Style::Windows, base, seq![letter, ':'] + rest) == seq![letter, ':'] + rest,
        base.len() > 2 && base.last() != '/' && base.last() != '\\' ==> joined(
            Style::Windows,
            base,
            p,
        ) == base + seq!['\\'] + p,
        base.len() > 0 && (base.last() == '/' || base.last() == '\\') ==> joined(
            Style::Windows,
            base,
            p,
        ) == base + p,
        joined(Style::Windows, seq![letter, ':'] + base, seq!['\\'] + p) == seq![letter, ':', '\\']
            + p,
{
    assert(prefix_len(seq![letter, ':'] + rest) == 2);
    assert(forward(p)[0] == p[0]);
    assert(prefix_len(p) == 0);
    assert(base.push('\\') =~= base + seq!['\\']);
    let q = seq!['\\'] + p;
    assert(forward(q)[1] == p[0]);
    assert(prefix_len(q) == 0);
    let d = seq![letter, ':'] + base;
    assert(prefix_len(d) == 2);
    assert(d.take(2) + q =~= seq![letter, ':', '\\'] + p);
}

/// What lies below a directory on a drive is what follows behind it.
pub proof fn what_follows_on_a_drive(letter: char, dir: Seq<char>, rest: Seq<char>)
    requires
        is_letter(letter),
        dir.len() > 0,
        rest.len() > 0,
        !rest.contains('/'),
        text::split(forward(rest), '/')[0].len() > 0,
        text::split(forward(rest), '/')[0] != seq!['.'],
        text::split(forward(rest), '/').last().len() > 0,
        text::split(forward(rest), '/').last() != seq!['.'],
    ensures
        ({
            let base = seq![letter, ':'] + dir;
            let s = base + seq!['\\'] + rest;
            &&& tail_text(Style::Windows, s, parts(Style::Windows, base).len() as int) == rest
            &&& under(Style::Windows, parts(Style::Windows, s), parts(Style::Windows, base))
        }),
{
    let base = seq![letter, ':'] + dir;
    let s = base + seq!['\\'] + rest;
    let d = forward(dir);
    let r = forward(rest);
    assert(has_drive(base) && has_drive(s));
    assert(base.subrange(2, base.len() as int) =~= dir);
    assert(s.subrange(2, s.len() as int) =~= dir + seq!['\\'] + rest);
    assert(forward(dir + seq!['\\'] + rest) =~= d.push('/') + r);
    assert(body(s) == d.push('/') + r);
    assert(body(base) == d);
    path::what_follows_a_directory(d, r);
    assert(backward(r) =~= rest) by {
        assert forall|i: int| 0 <= i < rest.len() implies backward(r)[i] == rest[i] by {
            assert(rest.contains(rest[i]));
        }
    }
    assert(s.take(2) =~= base.take(2));
    let ps = parts(Style::Windows, s);
    let pb = parts(Style::Windows, base);
    path::below_is_by_components(path::parts(body(s)), path::parts(d));
    below_on_windows(ps, pb);
    assert(ps[0] == pb[0]);
    assert forall|i: int| 1 <= i < pb.len() implies ps[i] == #[trigger] pb[i] by {
        assert(pb[i] == path::parts(d)[i - 1]);
        assert(ps[i] == path::parts(body(s))[i - 1]);
    }
    assert(pb.len() == 1 + path::parts(d).len());
    if path::parts(d).len() == 0 {
        assert(false) by {
            path::has_a_part(d);
        }
    }
}

} // verus!
