//! Characters and strings as sequences of characters.
use vstd::prelude::*;
use vstd::string::*;

verus! {

broadcast use vstd::string::group_string_axioms;

/// `String::push` appends one character to the end of the string.
pub assume_specification[ String::push ](s: &mut String, c: char)
    ensures
        final(s)@ == old(s)@.push(c),
;

/// The character classes that are stripped from the ends of a string.
#[derive(Clone, Copy, Debug, PartialEq, Eq, Structural)]
pub enum CharClass {
    /// Unicode white space.
    Space,
    /// Square brackets, as around an IPv6 literal.
    Bracket,
    /// The full stop.
    Dot,
    /// The forward slash.
    Slash,
    /// The asterisk.
    Star,
}

impl CharClass {
    /// Membership of `c` in the class.
    pub open spec fn has(self, c: char) -> bool {
        match self {
            CharClass::Space => is_space(c),
            CharClass::Bracket => c == '[' || c == ']',
            CharClass::Dot => c == '.',
            CharClass::Slash => c == '/',
            CharClass::Star => c == '*',
        }
    }

    pub fn contains(self, c: char) -> (r: bool)
        ensures
            r == self.has(c),
    {
        match self {
            CharClass::Space => white_space(c),
            CharClass::Bracket => c == '[' || c == ']',
            CharClass::Dot => c == '.',
            CharClass::Slash => c == '/',
            CharClass::Star => c == '*',
        }
    }
}

/// The characters with the Unicode property `White_Space`.
pub open spec fn is_space(c: char) -> bool {
    ||| 0x09 <= c as u32 <= 0x0d
    ||| c as u32 == 0x20
    ||| c as u32 == 0x85
    ||| c as u32 == 0xa0
    ||| c as u32 == 0x1680
    ||| 0x2000 <= c as u32 <= 0x200a
    ||| c as u32 == 0x2028
    ||| c as u32 == 0x2029
    ||| c as u32 == 0x202f
    ||| c as u32 == 0x205f
    ||| c as u32 == 0x3000
}

pub fn white_space(c: char) -> (r: bool)
    ensures
        r == is_space(c),
{
    let n: u32 = c as u32;
    (0x09 <= n && n <= 0x0d) || n == 0x20 || n == 0x85 || n == 0xa0 || n == 0x1680 || (0x2000 <= n
        && n <= 0x200a) || n == 0x2028 || n == 0x2029 || n == 0x202f || n == 0x205f || n == 0x3000
}

/// `s` without its longest prefix of characters of the class.
pub open spec fn trimmed_start(s: Seq<char>, class: CharClass) -> Seq<char>
    decreases s.len(),
{
    if s.len() > 0 && class.has(s[0]) {
        trimmed_start(s.subrange(1, s.len() as int), class)
    } else {
        s
    }
}

/// `s` without its longest suffix of characters of the class.
pub open spec fn trimmed_end(s: Seq<char>, class: CharClass) -> Seq<char>
    decreases s.len(),
{
    if s.len() > 0 && class.has(s.last()) {
        trimmed_end(s.drop_last(), class)
    } else {
        s
    }
}

/// `s` without leading and trailing characters of the class.
pub open spec fn trimmed(s: Seq<char>, class: CharClass) -> Seq<char> {
    trimmed_end(trimmed_start(s, class), class)
}

/// The ASCII upper-case letters become lower-case; every other character stays.
pub open spec fn lower_char(c: char) -> char {
    if 'A' <= c && c <= 'Z' {
        ((c as u8) + 32) as char
    } else {
        c
    }
}

pub open spec fn lowered(s: Seq<char>) -> Seq<char> {
    s.map_values(|c: char| lower_char(c))
}

/// The pieces of `s` between the occurrences of `sep`; one piece more than
/// there are separators.
pub open spec fn split(s: Seq<char>, sep: char) -> Seq<Seq<char>>
    decreases s.len(),
{
    if s.len() == 0 {
        seq![Seq::<char>::empty()]
    } else {
        let before = split(s.drop_last(), sep);
        if s.last() == sep {
            before.push(Seq::<char>::empty())
        } else {
            before.drop_last().push(before.last().push(s.last()))
        }
    }
}

/// Where `c` occurs first in `s`; the length of `s` if it does not.
pub open spec fn first_index(s: Seq<char>, c: char) -> int
    decreases s.len(),
{
    if s.len() == 0 || s[0] == c {
        0
    } else {
        1 + first_index(s.subrange(1, s.len() as int), c)
    }
}

/// Where `c` occurs last in `s`; -1 if it does not.
pub open spec fn last_index(s: Seq<char>, c: char) -> int
    decreases s.len(),
{
    if s.len() == 0 {
        -1
    } else if s.last() == c {
        s.len() - 1
    } else {
        last_index(s.drop_last(), c)
    }
}

/// `p` occurs in `s` as a run of neighbouring characters.
pub open spec fn has_substring(s: Seq<char>, p: Seq<char>) -> bool {
    exists|i: int| 0 <= i <= s.len() - p.len() && #[trigger] s.subrange(i, i + p.len()) == p
}

proof fn trimmed_start_len(s: Seq<char>, class: CharClass)
    ensures
        trimmed_start(s, class).len() <= s.len(),
        trimmed_start(s, class).len() == s.len() ==> trimmed_start(s, class) == s && (s.len() > 0
            ==> !class.has(s[0])),
    decreases s.len(),
{
    if s.len() > 0 && class.has(s[0]) {
        trimmed_start_len(s.subrange(1, s.len() as int), class);
    }
}

proof fn trimmed_end_len(s: Seq<char>, class: CharClass)
    ensures
        trimmed_end(s, class).len() <= s.len(),
        trimmed_end(s, class).len() == s.len() ==> trimmed_end(s, class) == s && (s.len() > 0
            ==> !class.has(s.last())),
    decreases s.len(),
{
    if s.len() > 0 && class.has(s.last()) {
        trimmed_end_len(s.drop_last(), class);
    }
}

/// Trimming never makes a string longer, and one that keeps its length is
/// unchanged and neither begins nor ends with a character of the class.
pub proof fn trimmed_shrinks(s: Seq<char>, class: CharClass)
    ensures
        trimmed(s, class).len() <= s.len(),
        trimmed_end(s, class).len() <= s.len(),
        trimmed(s, class).len() == s.len() ==> trimmed(s, class) == s && (s.len() > 0
            ==> !class.has(s[0]) && !class.has(s.last())),
        trimmed_end(s, class).len() == s.len() ==> trimmed_end(s, class) == s && (s.len() > 0
            ==> !class.has(s.last())),
{
    trimmed_start_len(s, class);
    trimmed_end_len(trimmed_start(s, class), class);
    trimmed_end_len(s, class);
}

/// Every character is of the class.
pub open spec fn all_of(s: Seq<char>, class: CharClass) -> bool {
    forall|i: int| 0 <= i < s.len() ==> class.has(#[trigger] s[i])
}

/// What is trimmed from the start of `s` does not depend on what follows, unless
/// nothing of `s` is left.
proof fn trimmed_start_push(s: Seq<char>, c: char, class: CharClass)
    ensures
        trimmed_start(s, class).len() > 0 || !class.has(c) ==> trimmed_start(s.push(c), class)
            == trimmed_start(s, class).push(c),
        trimmed_start(s, class).len() == 0 && class.has(c) ==> trimmed_start(s.push(c), class)
            == Seq::<char>::empty(),
    decreases s.len(),
{
    if s.len() == 0 {
        let t = s.push(c);
        assert(t.subrange(1, 1) =~= Seq::<char>::empty());
        assert(s =~= Seq::<char>::empty());
        if class.has(c) {
            assert(trimmed_start(t.subrange(1, 1), class) == Seq::<char>::empty());
        }
    } else if class.has(s[0]) {
        let rest = s.subrange(1, s.len() as int);
        trimmed_start_push(rest, c, class);
        assert(s.push(c).subrange(1, s.len() as int + 1) =~= rest.push(c));
        assert(s.push(c)[0] == s[0]);
    } else {
        assert(s.push(c)[0] == s[0]);
    }
}

proof fn trimmed_after(s: Seq<char>, after: Seq<char>, class: CharClass)
    requires
        all_of(after, class),
    ensures
        trimmed(s + after, class) == trimmed(s, class),
    decreases after.len(),
{
    if after.len() == 0 {
        assert(s + after =~= s);
    } else {
        let front = after.drop_last();
        let c = after[after.len() - 1];
        assert forall|i: int| 0 <= i < front.len() implies class.has(#[trigger] front[i]) by {
            assert(front[i] == after[i]);
        }
        trimmed_after(s, front, class);
        let t = s + front;
        assert(s + after =~= t.push(c));
        trimmed_start_push(t, c, class);
        let u = trimmed_start(t, class);
        if u.len() > 0 {
            assert(u.push(c).drop_last() =~= u);
        } else {
            assert(u =~= Seq::<char>::empty());
        }
    }
}

proof fn trimmed_start_before(before: Seq<char>, s: Seq<char>, class: CharClass)
    requires
        all_of(before, class),
    ensures
        trimmed_start(before + s, class) == trimmed_start(s, class),
    decreases before.len(),
{
    if before.len() == 0 {
        assert(before + s =~= s);
    } else {
        let rest = before.subrange(1, before.len() as int);
        assert forall|i: int| 0 <= i < rest.len() implies class.has(#[trigger] rest[i]) by {
            assert(rest[i] == before[i + 1]);
        }
        trimmed_start_before(rest, s, class);
        let all = before + s;
        assert(all.subrange(1, all.len() as int) =~= rest + s);
        assert(class.has(before[0]));
    }
}

/// Characters of the class around a text are trimmed away.
pub proof fn trimmed_around(before: Seq<char>, s: Seq<char>, after: Seq<char>, class: CharClass)
    requires
        all_of(before, class),
        all_of(after, class),
    ensures
        trimmed(before + s + after, class) == trimmed(s, class),
{
    trimmed_after(before + s, after, class);
    trimmed_start_before(before, s, class);
}

/// A text that ends in no character of the class is trimmed in front alone, as
/// it is with one more such character behind.
pub proof fn trimmed_behind(s: Seq<char>, c: char, class: CharClass)
    requires
        !class.has(c),
        s.len() > 0 ==> !class.has(s.last()),
    ensures
        trimmed(s.push(c), class) == trimmed(s, class).push(c),
        trimmed(s, class).len() > 0 ==> trimmed(s, class).last() == s.last(),
        trimmed(s, class).len() == 0 ==> s.len() == 0,
{
    trimmed_start_push(s, c, class);
    let t = trimmed_start(s, class);
    if s.len() > 0 {
        let k = trimmed_start_stops(s, class, s.len() - 1);
        assert(t.last() == s.last());
    }
    assert(trimmed_end(t, class) == t);
}

/// Letters of either case belong to the same classes.
proof fn same_class(c: char, d: char, class: CharClass)
    requires
        lower_char(c) == lower_char(d),
    ensures
        class.has(c) == class.has(d),
{
}

/// Texts that differ in case alone do so character by character.
proof fn same_letters(a: Seq<char>, b: Seq<char>)
    requires
        lowered(a) == lowered(b),
    ensures
        a.len() == b.len(),
        forall|i: int| 0 <= i < a.len() ==> lower_char(#[trigger] a[i]) == lower_char(b[i]),
{
    assert(lowered(a).len() == a.len());
    assert(lowered(b).len() == b.len());
    assert forall|i: int| 0 <= i < a.len() implies lower_char(#[trigger] a[i]) == lower_char(
        b[i],
    ) by {
        assert(lowered(a)[i] == lower_char(a[i]));
        assert(lowered(b)[i] == lower_char(b[i]));
    }
}

/// Texts that differ in case alone still do so when they are trimmed.
pub proof fn trimmed_case(a: Seq<char>, b: Seq<char>, class: CharClass)
    requires
        lowered(a) == lowered(b),
    ensures
        lowered(trimmed(a, class)) == lowered(trimmed(b, class)),
{
    trimmed_start_case(a, b, class);
    trimmed_end_case(trimmed_start(a, class), trimmed_start(b, class), class);
}

proof fn trimmed_start_case(a: Seq<char>, b: Seq<char>, class: CharClass)
    requires
        lowered(a) == lowered(b),
    ensures
        lowered(trimmed_start(a, class)) == lowered(trimmed_start(b, class)),
    decreases a.len(),
{
    same_letters(a, b);
    if a.len() > 0 {
        same_class(a[0], b[0], class);
        let x = a.subrange(1, a.len() as int);
        let y = b.subrange(1, b.len() as int);
        assert(lowered(x) =~= lowered(y)) by {
            assert forall|i: int| 0 <= i < x.len() implies lowered(x)[i] == lowered(y)[i] by {
                assert(x[i] == a[i + 1] && y[i] == b[i + 1]);
            }
        }
        trimmed_start_case(x, y, class);
    }
}

/// The same of trimming at the end.
pub proof fn trimmed_end_case(a: Seq<char>, b: Seq<char>, class: CharClass)
    requires
        lowered(a) == lowered(b),
    ensures
        lowered(trimmed_end(a, class)) == lowered(trimmed_end(b, class)),
    decreases a.len(),
{
    same_letters(a, b);
    if a.len() > 0 {
        assert(lower_char(a[a.len() - 1]) == lower_char(b[b.len() - 1]));
        same_class(a.last(), b.last(), class);
        let x = a.drop_last();
        let y = b.drop_last();
        assert(lowered(x) =~= lowered(y)) by {
            assert forall|i: int| 0 <= i < x.len() implies lowered(x)[i] == lowered(y)[i] by {
                assert(x[i] == a[i] && y[i] == b[i]);
            }
        }
        trimmed_end_case(x, y, class);
    }
}

/// Where leading trimming stops: not behind a character outside of the class.
pub proof fn trimmed_start_stops(s: Seq<char>, class: CharClass, i: int) -> (k: int)
    requires
        0 <= i < s.len(),
        !class.has(s[i]),
    ensures
        0 <= k <= i,
        trimmed_start(s, class) == s.subrange(k, s.len() as int),
    decreases s.len(),
{
    if class.has(s[0]) {
        let t = s.subrange(1, s.len() as int);
        let k = trimmed_start_stops(t, class, i - 1);
        assert(t.subrange(k, t.len() as int) =~= s.subrange(k + 1, s.len() as int));
        k + 1
    } else {
        assert(s.subrange(0, s.len() as int) =~= s);
        0
    }
}

pub fn chars_of(s: &str) -> (v: Vec<char>)
    ensures
        v@ == s@,
{
    let mut v: Vec<char> = Vec::new();
    for c in it: s.chars()
        invariant
            v@ == it.seq().take(it.index() as int),
            it.seq() == s@,
    {
        v.push(c);
    }
    v
}

/// Whether two strings hold the same characters.
pub fn same(a: &str, b: &str) -> (r: bool)
    ensures
        r == (a@ == b@),
{
    let x = chars_of(a);
    let y = chars_of(b);
    if x.len() != y.len() {
        return false;
    }
    let mut i: usize = 0;
    while i < x.len()
        invariant
            i <= x.len() == y.len(),
            x@.take(i as int) == y@.take(i as int),
            x@ == a@,
            y@ == b@,
        decreases x.len() - i,
    {
        if x[i] != y[i] {
            return false;
        }
        i += 1;
    }
    assert(x@.take(x@.len() as int) =~= x@);
    assert(y@.take(y@.len() as int) =~= y@);
    true
}

/// The string without leading and trailing characters of the class.
pub fn trim<'a>(s: &'a str, class: CharClass) -> (r: &'a str)
    ensures
        r@ == trimmed(s@, class),
{
    let v = chars_of(s);
    let mut i: usize = 0;
    assert(s@.subrange(0, s@.len() as int) =~= s@);
    while i < v.len() && class.contains(v[i])
        invariant
            v@ == s@,
            i <= v.len(),
            trimmed_start(s@, class) == trimmed_start(s@.subrange(i as int, s@.len() as int), class),
        ensures
            i <= v.len(),
            trimmed_start(s@, class) == s@.subrange(i as int, s@.len() as int),
        decreases v.len() - i,
    {
        assert(s@.subrange(i as int, s@.len() as int).subrange(1, s@.len() - i) =~= s@.subrange(
            i + 1,
            s@.len() as int,
        ));
        i += 1;
    }
    let mut j: usize = v.len();
    while i < j && class.contains(v[j - 1])
        invariant
            v@ == s@,
            i <= j <= v.len(),
            trimmed(s@, class) == trimmed_end(s@.subrange(i as int, j as int), class),
        ensures
            i <= j <= v.len(),
            trimmed(s@, class) == s@.subrange(i as int, j as int),
        decreases j - i,
    {
        assert(s@.subrange(i as int, j as int).drop_last() =~= s@.subrange(i as int, j - 1));
        j -= 1;
    }
    s.substring_char(i, j)
}

/// The string without leading characters of the class.
pub fn trim_start<'a>(s: &'a str, class: CharClass) -> (r: &'a str)
    ensures
        r@ == trimmed_start(s@, class),
{
    let v = chars_of(s);
    let mut i: usize = 0;
    assert(s@.subrange(0, s@.len() as int) =~= s@);
    while i < v.len() && class.contains(v[i])
        invariant
            v@ == s@,
            i <= v.len(),
            trimmed_start(s@, class) == trimmed_start(s@.subrange(i as int, s@.len() as int), class),
        ensures
            i <= v.len(),
            trimmed_start(s@, class) == s@.subrange(i as int, s@.len() as int),
        decreases v.len() - i,
    {
        assert(s@.subrange(i as int, s@.len() as int).subrange(1, s@.len() - i) =~= s@.subrange(
            i + 1,
            s@.len() as int,
        ));
        i += 1;
    }
    let n: usize = v.len();
    s.substring_char(i, n)
}

/// The string without trailing characters of the class.
pub fn trim_end<'a>(s: &'a str, class: CharClass) -> (r: &'a str)
    ensures
        r@ == trimmed_end(s@, class),
{
    let v = chars_of(s);
    let mut j: usize = v.len();
    assert(s@.subrange(0, j as int) =~= s@);
    while 0 < j && class.contains(v[j - 1])
        invariant
            v@ == s@,
            j <= v.len(),
            trimmed_end(s@, class) == trimmed_end(s@.subrange(0, j as int), class),
        ensures
            j <= v.len(),
            trimmed_end(s@, class) == s@.subrange(0, j as int),
        decreases j,
    {
        assert(s@.subrange(0, j as int).drop_last() =~= s@.subrange(0, j - 1));
        j -= 1;
    }
    s.substring_char(0, j)
}

/// The string with its ASCII letters in lower case.
pub fn lower(s: &str) -> (r: String)
    ensures
        r@ == lowered(s@),
{
    let v = chars_of(s);
    let mut r = String::new();
    let mut i: usize = 0;
    while i < v.len()
        invariant
            v@ == s@,
            i <= v.len(),
            r@ == lowered(s@).take(i as int),
        decreases v.len() - i,
    {
        let c = v[i];
        if 'A' <= c && c <= 'Z' {
            r.push(((c as u8) + 32) as char);
        } else {
            r.push(c);
        }
        i += 1;
        assert(r@ =~= lowered(s@).take(i as int));
    }
    assert(lowered(s@).take(v.len() as int) =~= lowered(s@));
    r
}

/// Where `c` occurs first, counted in characters.
pub fn find_char(s: &str, c: char) -> (r: Option<usize>)
    ensures
        match r {
            Some(i) => i == first_index(s@, c) && i < s@.len(),
            None => first_index(s@, c) == s@.len(),
        },
{
    let v = chars_of(s);
    let mut i: usize = 0;
    assert(s@.subrange(0, s@.len() as int) =~= s@);
    while i < v.len()
        invariant
            v@ == s@,
            i <= v.len(),
            first_index(s@, c) == i + first_index(s@.subrange(i as int, s@.len() as int), c),
        decreases v.len() - i,
    {
        if v[i] == c {
            return Some(i);
        }
        assert(s@.subrange(i as int, s@.len() as int).subrange(1, s@.len() - i) =~= s@.subrange(
            i + 1,
            s@.len() as int,
        ));
        i += 1;
    }
    None
}

/// Where `c` occurs last, counted in characters.
pub fn rfind_char(s: &str, c: char) -> (r: Option<usize>)
    ensures
        match r {
            Some(i) => i == last_index(s@, c) && i < s@.len(),
            None => last_index(s@, c) == -1,
        },
{
    let v = chars_of(s);
    let mut j: usize = v.len();
    assert(s@.subrange(0, s@.len() as int) =~= s@);
    while 0 < j
        invariant
            v@ == s@,
            j <= v.len(),
            last_index(s@, c) == last_index(s@.subrange(0, j as int), c),
        decreases j,
    {
        if v[j - 1] == c {
            return Some(j - 1);
        }
        assert(s@.subrange(0, j as int).drop_last() =~= s@.subrange(0, j - 1));
        j -= 1;
    }
    None
}

/// Whether `s` begins with `p`.
pub fn starts_with(s: &str, p: &str) -> (r: bool)
    ensures
        r == p@.is_prefix_of(s@),
{
    let n: usize = p.unicode_len();
    if s.unicode_len() < n {
        return false;
    }
    same(s.substring_char(0, n), p)
}

/// Whether `s` ends with `p`.
pub fn ends_with(s: &str, p: &str) -> (r: bool)
    ensures
        r == p@.is_suffix_of(s@),
{
    let n: usize = p.unicode_len();
    let m: usize = s.unicode_len();
    if m < n {
        return false;
    }
    same(s.substring_char(m - n, m), p)
}

/// What follows the prefix `p`, if `s` begins with it.
pub fn strip_prefix<'a>(s: &'a str, p: &str) -> (r: Option<&'a str>)
    ensures
        match r {
            Some(t) => p@.is_prefix_of(s@) && t@ == s@.subrange(p@.len() as int, s@.len() as int),
            None => !p@.is_prefix_of(s@),
        },
{
    if starts_with(s, p) {
        Some(s.substring_char(p.unicode_len(), s.unicode_len()))
    } else {
        None
    }
}

/// Whether `p` occurs somewhere in `s`.
pub fn contains(s: &str, p: &str) -> (r: bool)
    ensures
        r == has_substring(s@, p@),
{
    let n: usize = s.unicode_len();
    let m: usize = p.unicode_len();
    if n < m {
        return false;
    }
    let mut i: usize = 0;
    while i <= n - m
        invariant
            n == s@.len(),
            m == p@.len(),
            m <= n,
            i <= n - m + 1,
            forall|k: int| 0 <= k < i ==> #[trigger] s@.subrange(k, k + m) != p@,
        decreases n - m + 1 - i,
    {
        if same(s.substring_char(i, i + m), p) {
            return true;
        }
        if i == n - m {
            return false;
        }
        i += 1;
    }
    false
}

/// Whether the character `c` occurs in `s`.
pub fn contains_char(s: &str, c: char) -> (r: bool)
    ensures
        r == s@.contains(c),
{
    let v = chars_of(s);
    let mut i: usize = 0;
    while i < v.len()
        invariant
            v@ == s@,
            i <= v.len(),
            forall|k: int| 0 <= k < i ==> s@[k] != c,
        decreases v.len() - i,
    {
        if v[i] == c {
            return true;
        }
        i += 1;
    }
    false
}

/// The pieces of `s` between the occurrences of `sep`.
pub fn split_on(s: &str, sep: char) -> (r: Vec<String>)
    ensures
        r.deep_view() == split(s@, sep),
{
    let v = chars_of(s);
    let mut r: Vec<String> = Vec::new();
    let mut cur = String::new();
    let mut i: usize = 0;
    assert(s@.take(0) =~= Seq::<char>::empty());
    assert(r.deep_view().push(cur@) =~= split(s@.take(0), sep));
    while i < v.len()
        invariant
            v@ == s@,
            i <= v.len(),
            r.deep_view().push(cur@) == split(s@.take(i as int), sep),
        decreases v.len() - i,
    {
        let c = v[i];
        let ghost done = r.deep_view();
        let ghost before = cur@;
        assert(s@.take(i + 1).drop_last() =~= s@.take(i as int));
        if c == sep {
            r.push(cur);
            cur = String::new();
            assert(r.deep_view() =~= done.push(before));
        } else {
            cur.push(c);
            assert(done.push(before).drop_last() =~= done);
        }
        i += 1;
    }
    let ghost done = r.deep_view();
    let ghost last = cur@;
    r.push(cur);
    assert(r.deep_view() =~= done.push(last));
    assert(s@.take(s@.len() as int) =~= s@);
    r
}

/// A character that is not of the class is not trimmed away.
pub proof fn trimmed_keeps(s: Seq<char>, class: CharClass, i: int)
    requires
        0 <= i < s.len(),
        !class.has(s[i]),
    ensures
        trimmed(s, class).len() > 0,
{
    let k = trimmed_start_stops(s, class, i);
    let t = s.subrange(k, s.len() as int);
    assert(t[i - k] == s[i]);
    trimmed_end_keeps(t, class, i - k);
}

proof fn trimmed_end_keeps(s: Seq<char>, class: CharClass, i: int)
    requires
        0 <= i < s.len(),
        !class.has(s[i]),
    ensures
        trimmed_end(s, class).len() > i,
    decreases s.len(),
{
    if class.has(s.last()) {
        trimmed_end_keeps(s.drop_last(), class, i);
    }
}

/// Splitting a text cuts it at every separator and nowhere else: behind a last
/// separator stands the last piece, and a text without one is its only piece.
pub proof fn split_cuts_at_separators(a: Seq<char>, b: Seq<char>, sep: char)
    requires
        !b.contains(sep),
    ensures
        split(a.push(sep) + b, sep) == split(a, sep).push(b),
        split(b, sep) == seq![b],
    decreases b.len(),
{
    if b.len() == 0 {
        assert(a.push(sep) + b =~= a.push(sep));
        assert(a.push(sep).drop_last() =~= a);
        assert(b =~= Seq::<char>::empty());
    } else {
        let f = b.drop_last();
        assert forall|c: char| f.contains(c) implies b.contains(c) by {
            let i = choose|i: int| 0 <= i < f.len() && f[i] == c;
            assert(b[i] == c);
        }
        assert(b.contains(b.last())) by {
            assert(b[b.len() - 1] == b.last());
        }
        split_cuts_at_separators(a, f, sep);
        let s = a.push(sep) + b;
        assert(s.drop_last() =~= a.push(sep) + f);
        assert(f.push(b.last()) =~= b);
        let before = split(a, sep).push(f);
        assert(before.drop_last() =~= split(a, sep));
        assert(split(f, sep).drop_last() =~= Seq::<Seq<char>>::empty());
        assert(split(b, sep) =~= seq![b]);
    }
}

/// Splitting at separators cuts each side of one by itself.
pub proof fn split_cuts_each_side(a: Seq<char>, b: Seq<char>, sep: char)
    ensures
        split(a.push(sep) + b, sep) == split(a, sep) + split(b, sep),
        split(b, sep).len() > 0,
    decreases b.len(),
{
    if b.len() == 0 {
        assert(a.push(sep) + b =~= a.push(sep));
        assert(a.push(sep).drop_last() =~= a);
        assert(split(a.push(sep), sep) =~= split(a, sep) + split(b, sep));
    } else {
        let f = b.drop_last();
        split_cuts_each_side(a, f, sep);
        let s = a.push(sep) + b;
        assert(s.drop_last() =~= a.push(sep) + f);
        let x = split(a, sep);
        let y = split(f, sep);
        assert((x + y).drop_last() =~= x + y.drop_last());
        assert((x + y).last() == y.last());
        assert(split(s, sep) =~= x + split(b, sep));
    }
}

/// The first place of a character: nothing in front of it is the character, and it is
/// there unless the text lacks it.
pub proof fn first_index_is_first(s: Seq<char>, c: char)
    ensures
        ({
            let k = first_index(s, c);
            &&& 0 <= k <= s.len()
            &&& k < s.len() ==> s[k] == c
            &&& forall|i: int| 0 <= i < k ==> #[trigger] s[i] != c
        }),
    decreases s.len(),
{
    if s.len() > 0 && s[0] != c {
        let t = s.subrange(1, s.len() as int);
        first_index_is_first(t, c);
        assert forall|i: int| 0 <= i < first_index(s, c) implies #[trigger] s[i] != c by {
            if i > 0 {
                assert(s[i] == t[i - 1]);
            }
        }
    }
}

/// The last place of a character: nothing behind it is the character, and it is there
/// unless the text lacks it.
pub proof fn last_index_is_last(s: Seq<char>, c: char)
    ensures
        ({
            let k = last_index(s, c);
            &&& -1 <= k < s.len()
            &&& k >= 0 ==> s[k] == c
            &&& forall|i: int| k < i < s.len() ==> #[trigger] s[i] != c
        }),
    decreases s.len(),
{
    if s.len() > 0 && s.last() != c {
        let t = s.drop_last();
        last_index_is_last(t, c);
        assert forall|i: int| last_index(s, c) < i < s.len() implies #[trigger] s[i] != c by {
            if i < s.len() - 1 {
                assert(s[i] == t[i]);
            }
        }
    }
}

/// What the classes of characters hold: white space is what Unicode calls so.
pub proof fn what_classes_hold(c: char)
    ensures
        CharClass::Space.has(c) <==> {
            let n = c as u32;
            ||| n == 9 || n == 10 || n == 11 || n == 12 || n == 13 || n == 32
            ||| n == 0x85 || n == 0xa0 || n == 0x1680
            ||| n == 0x2000 || n == 0x2001 || n == 0x2002 || n == 0x2003 || n == 0x2004
            ||| n == 0x2005 || n == 0x2006 || n == 0x2007 || n == 0x2008 || n == 0x2009
            ||| n == 0x200a || n == 0x2028 || n == 0x2029 || n == 0x202f || n == 0x205f
            ||| n == 0x3000
        },
        CharClass::Bracket.has(c) <==> c == '[' || c == ']',
        CharClass::Dot.has(c) <==> c == '.',
        CharClass::Slash.has(c) <==> c == '/',
        CharClass::Star.has(c) <==> c == '*',
{
}

/// Lowering a text makes its capital ASCII letters small and changes nothing else.
pub proof fn lowering_changes_only_capitals(s: Seq<char>, i: int)
    requires
        0 <= i < s.len(),
    ensures
        lowered(s).len() == s.len(),
        'A' <= s[i] && s[i] <= 'Z' ==> lowered(s)[i] as u32 == s[i] as u32 + 32,
        !('A' <= s[i] && s[i] <= 'Z') ==> lowered(s)[i] == s[i],
{
}

/// A text is its pieces with the separator between them.
pub proof fn split_at_its_last(s: Seq<char>, sep: char)
    ensures
        !s.contains(sep) ==> split(s, sep) == seq![s],
        s.contains(sep) ==> ({
            let k = last_index(s, sep);
            &&& 0 <= k < s.len()
            &&& s == s.take(k).push(sep) + s.subrange(k + 1, s.len() as int)
            &&& split(s, sep) == split(s.take(k), sep).push(s.subrange(k + 1, s.len() as int))
            &&& !s.subrange(k + 1, s.len() as int).contains(sep)
        }),
{
    last_index_is_last(s, sep);
    if s.contains(sep) {
        let i = choose|i: int| 0 <= i < s.len() && s[i] == sep;
        let k = last_index(s, sep);
        let a = s.take(k);
        let b = s.subrange(k + 1, s.len() as int);
        assert(!b.contains(sep)) by {
            if b.contains(sep) {
                let j = choose|j: int| 0 <= j < b.len() && b[j] == sep;
                assert(s[k + 1 + j] == sep);
            }
        }
        assert(a.push(sep) + b =~= s);
        split_cuts_at_separators(a, b, sep);
    } else {
        split_cuts_at_separators(s, s, sep);
    }
}

/// A text holds another if that one stands somewhere in it, between what is in front of
/// it and what is behind it.
pub proof fn what_texts_hold(before: Seq<char>, p: Seq<char>, after: Seq<char>, s: Seq<char>)
    ensures
        has_substring(before + p + after, p),
        has_substring(s, p) ==> exists|i: int|
            0 <= i <= s.len() - p.len() && #[trigger] s.subrange(0, i) + p + s.subrange(
                i + p.len(),
                s.len() as int,
            ) == s,
{
    let all = before + p + after;
    let n = before.len() as int;
    assert(all.subrange(n, n + p.len()) =~= p);
    if has_substring(s, p) {
        let i = choose|i: int|
            0 <= i <= s.len() - p.len() && #[trigger] s.subrange(i, i + p.len()) == p;
        assert(s.subrange(0, i) + s.subrange(i, i + p.len()) + s.subrange(i + p.len(), s.len() as int)
            =~= s);
    }
}

} // verus!
