//! Pieces of JSON text.
use crate::number;
use vstd::prelude::*;
use vstd::string::*;

verus! {

/// A character inside a JSON string.
pub open spec fn json_char(c: char) -> Seq<char> {
    if c == '"' {
        seq!['\\', '"']
    } else if c == '\\' {
        seq!['\\', '\\']
    } else if c as u32 == 8 {
        seq!['\\', 'b']
    } else if c == '\t' {
        seq!['\\', 't']
    } else if c == '\n' {
        seq!['\\', 'n']
    } else if c as u32 == 12 {
        seq!['\\', 'f']
    } else if c == '\r' {
        seq!['\\', 'r']
    } else if (c as u32) < 0x20 {
        seq![
            '\\',
            'u',
            '0',
            '0',
            number::digit_char(c as int / 16),
            number::digit_char(c as int % 16),
        ]
    } else {
        seq![c]
    }
}

/// The characters of `s` as they stand inside a JSON string.
pub open spec fn json_chars(s: Seq<char>) -> Seq<char>
    decreases s.len(),
{
    if s.len() == 0 {
        Seq::empty()
    } else {
        json_chars(s.drop_last()) + json_char(s.last())
    }
}

/// `s` as a JSON string.
pub open spec fn json_string(s: Seq<char>) -> Seq<char> {
    "\""@ + json_chars(s) + "\""@
}

/// Calls `serde_json::to_string` on a string slice, which writes the string in
/// double quotes, with a backslash escape for the double quote, the backslash
/// and the control characters below U+0020, and every other character as it is.
/// Writing into memory does not fail.
#[verifier::external_body]
pub(crate) fn string_json(s: &str) -> (r: String)
    ensures
        r@ == json_string(s@),
{
    serde_json::to_string(s).unwrap_or_default()
}

/// `null`, or the string.
pub open spec fn json_optional(s: Option<Seq<char>>) -> Seq<char> {
    match s {
        Some(t) => json_string(t),
        None => "null"@,
    }
}

pub fn optional_json(s: &Option<String>) -> (r: String)
    ensures
        r@ == json_optional(s.deep_view()),
{
    match s {
        Some(t) => string_json(t.as_str()),
        None => "null".to_owned(),
    }
}

pub open spec fn json_bool(b: bool) -> Seq<char> {
    if b {
        "true"@
    } else {
        "false"@
    }
}

pub fn bool_json(b: bool) -> (r: String)
    ensures
        r@ == json_bool(b),
{
    if b {
        "true".to_owned()
    } else {
        "false".to_owned()
    }
}

/// An integer in decimal, with a minus sign if it is negative.
pub open spec fn json_int(n: int) -> Seq<char> {
    if n < 0 {
        "-"@ + number::decimal((-n) as nat)
    } else {
        number::decimal(n as nat)
    }
}

pub fn int_json(n: i32) -> (r: String)
    ensures
        r@ == json_int(n as int),
{
    if n < 0 {
        "-".to_owned().concat(number::to_decimal((-(n as i64)) as u64).as_str())
    } else {
        number::to_decimal(n as u64)
    }
}

/// Strings with commas between them.
pub open spec fn json_items(items: Seq<Seq<char>>) -> Seq<char>
    decreases items.len(),
{
    if items.len() == 0 {
        Seq::empty()
    } else if items.len() == 1 {
        json_string(items[0])
    } else {
        json_items(items.drop_last()) + ","@ + json_string(items.last())
    }
}

/// A JSON array of strings.
pub open spec fn json_array(items: Seq<Seq<char>>) -> Seq<char> {
    "["@ + json_items(items) + "]"@
}

pub fn array_json(items: &Vec<String>) -> (r: String)
    ensures
        r@ == json_array(items.deep_view()),
{
    let ghost m = items.deep_view();
    let mut r = String::new();
    let mut i: usize = 0;
    assert(m.take(0) =~= Seq::<Seq<char>>::empty());
    while i < items.len()
        invariant
            m == items.deep_view(),
            i <= items.len(),
            r@ == json_items(m.take(i as int)),
        decreases items.len() - i,
    {
        assert(m[i as int] == items@[i as int]@);
        assert(m.take(i + 1).drop_last() =~= m.take(i as int));
        if i > 0 {
            r.append(",");
        }
        r.append(string_json(items[i].as_str()).as_str());
        i += 1;
        if i == 1 {
            assert(r@ =~= json_string(m[0]));
        }
    }
    assert(m.take(m.len() as int) =~= m);
    "[".to_owned().concat(r.as_str()).concat("]")
}

// ---------------------------------------------------------------------------
// Laws
// ---------------------------------------------------------------------------
/// What stands behind a common beginning is equal if the whole is.
pub proof fn same_rest(head: Seq<char>, x: Seq<char>, y: Seq<char>)
    requires
        head + x == head + y,
    ensures
        x == y,
{
    assert(x =~= (head + x).subrange(head.len() as int, (head + x).len() as int));
    assert(y =~= (head + y).subrange(head.len() as int, (head + y).len() as int));
}

proof fn assoc(a: Seq<char>, b: Seq<char>, c: Seq<char>)
    ensures
        (a + b) + c == a + (b + c),
{
    assert((a + b) + c =~= a + (b + c));
}

/// Pieces of text one after the other, with `x` behind them, seen from the front.
pub proof fn regroup_3(
    a: Seq<char>,
    b: Seq<char>,
    c: Seq<char>,
    x: Seq<char>,
)
    ensures
        (a + b + c) + x == a + (b + (c + x)),
{
    assoc(a + b, c, x);
    assoc(a, b, c + x);
}

pub proof fn regroup_5(
    a: Seq<char>,
    b: Seq<char>,
    c: Seq<char>,
    d: Seq<char>,
    e: Seq<char>,
    x: Seq<char>,
)
    ensures
        (a + b + c + d + e) + x == a + (b + (c + (d + (e + x)))),
{
    assoc(a + b + c + d, e, x);
    assoc(a + b + c, d, e + x);
    assoc(a + b, c, d + (e + x));
    assoc(a, b, c + (d + (e + x)));
}

pub proof fn regroup_7(
    a: Seq<char>,
    b: Seq<char>,
    c: Seq<char>,
    d: Seq<char>,
    e: Seq<char>,
    f: Seq<char>,
    g: Seq<char>,
    x: Seq<char>,
)
    ensures
        (a + b + c + d + e + f + g) + x == a + (b + (c + (d + (e + (f + (g + x)))))),
{
    assoc(a + b + c + d + e + f, g, x);
    assoc(a + b + c + d + e, f, g + x);
    assoc(a + b + c + d, e, f + (g + x));
    assoc(a + b + c, d, e + (f + (g + x)));
    assoc(a + b, c, d + (e + (f + (g + x))));
    assoc(a, b, c + (d + (e + (f + (g + x)))));
}

pub proof fn regroup_8(
    a: Seq<char>,
    b: Seq<char>,
    c: Seq<char>,
    d: Seq<char>,
    e: Seq<char>,
    f: Seq<char>,
    g: Seq<char>,
    h: Seq<char>,
    x: Seq<char>,
)
    ensures
        (a + b + c + d + e + f + g + h) + x == a + (b + (c + (d + (e + (f + (g + (h + x))))))),
{
    assoc(a + b + c + d + e + f + g, h, x);
    assoc(a + b + c + d + e + f, g, h + x);
    assoc(a + b + c + d + e, f, g + (h + x));
    assoc(a + b + c + d, e, f + (g + (h + x)));
    assoc(a + b + c, d, e + (f + (g + (h + x))));
    assoc(a + b, c, d + (e + (f + (g + (h + x)))));
    assoc(a, b, c + (d + (e + (f + (g + (h + x))))));
}

pub proof fn regroup_9(
    a: Seq<char>,
    b: Seq<char>,
    c: Seq<char>,
    d: Seq<char>,
    e: Seq<char>,
    f: Seq<char>,
    g: Seq<char>,
    h: Seq<char>,
    i: Seq<char>,
    x: Seq<char>,
)
    ensures
        (a + b + c + d + e + f + g + h + i) + x == a + (b + (c + (d + (e + (f + (g + (h + (i + x)))))))),
{
    assoc(a + b + c + d + e + f + g + h, i, x);
    assoc(a + b + c + d + e + f + g, h, i + x);
    assoc(a + b + c + d + e + f, g, h + (i + x));
    assoc(a + b + c + d + e, f, g + (h + (i + x)));
    assoc(a + b + c + d, e, f + (g + (h + (i + x))));
    assoc(a + b + c, d, e + (f + (g + (h + (i + x)))));
    assoc(a + b, c, d + (e + (f + (g + (h + (i + x))))));
    assoc(a, b, c + (d + (e + (f + (g + (h + (i + x)))))));
}

pub proof fn regroup_12(
    a: Seq<char>,
    b: Seq<char>,
    c: Seq<char>,
    d: Seq<char>,
    e: Seq<char>,
    f: Seq<char>,
    g: Seq<char>,
    h: Seq<char>,
    i: Seq<char>,
    j: Seq<char>,
    k: Seq<char>,
    l: Seq<char>,
    x: Seq<char>,
)
    ensures
        (a + b + c + d + e + f + g + h + i + j + k + l) + x == a + (b + (c + (d + (e + (f + (g + (h + (i + (j + (k + (l + x))))))))))),
{
    assoc(a + b + c + d + e + f + g + h + i + j + k, l, x);
    assoc(a + b + c + d + e + f + g + h + i + j, k, l + x);
    assoc(a + b + c + d + e + f + g + h + i, j, k + (l + x));
    assoc(a + b + c + d + e + f + g + h, i, j + (k + (l + x)));
    assoc(a + b + c + d + e + f + g, h, i + (j + (k + (l + x))));
    assoc(a + b + c + d + e + f, g, h + (i + (j + (k + (l + x)))));
    assoc(a + b + c + d + e, f, g + (h + (i + (j + (k + (l + x))))));
    assoc(a + b + c + d, e, f + (g + (h + (i + (j + (k + (l + x)))))));
    assoc(a + b + c, d, e + (f + (g + (h + (i + (j + (k + (l + x))))))));
    assoc(a + b, c, d + (e + (f + (g + (h + (i + (j + (k + (l + x)))))))));
    assoc(a, b, c + (d + (e + (f + (g + (h + (i + (j + (k + (l + x))))))))));
}

/// A character inside a JSON string is told apart by its first text.
proof fn chars_are_unambiguous(c: char, d: char, x: Seq<char>, y: Seq<char>)
    requires
        json_char(c) + x == json_char(d) + y,
    ensures
        c == d,
        x == y,
        json_char(c)[0] != '"',
{
    let a = json_char(c);
    let b = json_char(d);
    let t = a + x;
    assert(a[0] == t[0] && b[0] == (b + y)[0]);
    if a.len() > 1 && b.len() > 1 {
        assert(a[1] == t[1] && b[1] == (b + y)[1]);
        if a.len() == 6 && b.len() == 6 {
            assert(a[4] == t[4] && b[4] == (b + y)[4]);
            assert(a[5] == t[5] && b[5] == (b + y)[5]);
            number::digit_chars_differ(c as int / 16, d as int / 16);
            number::digit_chars_differ(c as int % 16, d as int % 16);
        }
    }
    same_rest(a, x, y);
}

proof fn first_char(s: Seq<char>)
    requires
        s.len() > 0,
    ensures
        json_chars(s) == json_char(s[0]) + json_chars(s.drop_first()),
    decreases s.len(),
{
    let e = Seq::<char>::empty();
    if s.len() == 1 {
        assert(s.drop_last() =~= e);
        assert(s.drop_first() =~= e);
        assert(json_chars(e) =~= e);
        assert(e + json_char(s[0]) =~= json_char(s[0]) + e);
    } else {
        first_char(s.drop_last());
        assert(s.drop_last().drop_first() =~= s.drop_first().drop_last());
        assert(json_char(s[0]) + json_chars(s.drop_first().drop_last()) + json_char(s.last())
            =~= json_char(s[0]) + (json_chars(s.drop_first().drop_last()) + json_char(s.last())));
    }
}

proof fn contents_are_unambiguous(a: Seq<char>, b: Seq<char>, x: Seq<char>, y: Seq<char>)
    requires
        json_chars(a) + (seq!['"'] + x) == json_chars(b) + (seq!['"'] + y),
    ensures
        a == b,
        x == y,
    decreases a.len(),
{
    let qx = seq!['"'] + x;
    let qy = seq!['"'] + y;
    let e = Seq::<char>::empty();
    if a.len() > 0 {
        first_char(a);
        let ra = json_chars(a.drop_first()) + qx;
        assert(json_chars(a) + qx =~= json_char(a[0]) + ra);
        if b.len() > 0 {
            first_char(b);
            let rb = json_chars(b.drop_first()) + qy;
            assert(json_chars(b) + qy =~= json_char(b[0]) + rb);
            chars_are_unambiguous(a[0], b[0], ra, rb);
            contents_are_unambiguous(a.drop_first(), b.drop_first(), x, y);
            assert(a =~= seq![a[0]] + a.drop_first());
            assert(b =~= seq![b[0]] + b.drop_first());
        } else {
            assert(json_chars(b) + qy =~= qy);
            assert((json_char(a[0]) + ra)[0] == json_char(a[0])[0]);
            assert(qy[0] == '"');
        }
    } else {
        assert(json_chars(a) + qx =~= qx);
        if b.len() > 0 {
            first_char(b);
            let rb = json_chars(b.drop_first()) + qy;
            assert(json_chars(b) + qy =~= json_char(b[0]) + rb);
            assert((json_char(b[0]) + rb)[0] == json_char(b[0])[0]);
            assert(qx[0] == '"');
        } else {
            assert(json_chars(b) + qy =~= qy);
            same_rest(seq!['"'], x, y);
            assert(a =~= b);
        }
    }
}

/// A JSON string ends where it ends: texts that begin with JSON strings are only
/// equal if the strings are, and what follows them.
pub proof fn strings_are_unambiguous(a: Seq<char>, b: Seq<char>, x: Seq<char>, y: Seq<char>)
    requires
        json_string(a) + x == json_string(b) + y,
    ensures
        a == b,
        x == y,
{
    reveal_strlit("\"");
    let q = "\""@;
    assert(q =~= seq!['"']);
    let ra = json_chars(a) + (seq!['"'] + x);
    let rb = json_chars(b) + (seq!['"'] + y);
    assert(json_string(a) + x =~= q + ra);
    assert(json_string(b) + y =~= q + rb);
    same_rest(q, ra, rb);
    contents_are_unambiguous(a, b, x, y);
}

/// The same holds of strings that may be missing.
pub proof fn optionals_are_unambiguous(
    a: Option<Seq<char>>,
    b: Option<Seq<char>>,
    x: Seq<char>,
    y: Seq<char>,
)
    requires
        json_optional(a) + x == json_optional(b) + y,
    ensures
        a == b,
        x == y,
{
    reveal_strlit("\"");
    reveal_strlit("null");
    assert((json_optional(a) + x)[0] == json_optional(a)[0]);
    assert((json_optional(b) + y)[0] == json_optional(b)[0]);
    match (a, b) {
        (Some(s), Some(t)) => strings_are_unambiguous(s, t, x, y),
        (None, None) => same_rest("null"@, x, y),
        (Some(s), None) => {
            assert(json_string(s)[0] == '"');
        },
        (None, Some(t)) => {
            assert(json_string(t)[0] == '"');
        },
    }
}

/// The same holds of truth values.
pub proof fn bools_are_unambiguous(a: bool, b: bool, x: Seq<char>, y: Seq<char>)
    requires
        json_bool(a) + x == json_bool(b) + y,
    ensures
        a == b,
        x == y,
{
    reveal_strlit("true");
    reveal_strlit("false");
    assert((json_bool(a) + x)[0] == json_bool(a)[0]);
    assert((json_bool(b) + y)[0] == json_bool(b)[0]);
    same_rest(json_bool(a), x, y);
}

/// The same holds of integers, where no digit follows.
pub proof fn ints_are_unambiguous(a: int, b: int, x: Seq<char>, y: Seq<char>)
    requires
        json_int(a) + x == json_int(b) + y,
        x.len() == 0 || !number::is_digit(x[0]),
        y.len() == 0 || !number::is_digit(y[0]),
    ensures
        a == b,
        x == y,
{
    reveal_strlit("-");
    let na = if a < 0 {
        (-a) as nat
    } else {
        a as nat
    };
    let nb = if b < 0 {
        (-b) as nat
    } else {
        b as nat
    };
    number::decimal_reads_back(na);
    number::decimal_reads_back(nb);
    assert(number::is_digit(number::decimal(na)[0]));
    assert(number::is_digit(number::decimal(nb)[0]));
    assert((json_int(a) + x)[0] == json_int(a)[0]);
    assert((json_int(b) + y)[0] == json_int(b)[0]);
    if a < 0 {
        assert(json_int(a)[0] == '-');
        assert(json_int(a) + x =~= "-"@ + (number::decimal(na) + x));
    }
    if b < 0 {
        assert(json_int(b)[0] == '-');
        assert(json_int(b) + y =~= "-"@ + (number::decimal(nb) + y));
    }
    if a < 0 && b < 0 {
        same_rest("-"@, number::decimal(na) + x, number::decimal(nb) + y);
    }
    number::decimals_are_unambiguous(na, nb, x, y);
}

proof fn first_item(items: Seq<Seq<char>>)
    requires
        items.len() > 1,
    ensures
        json_items(items) == json_string(items[0]) + (","@ + json_items(items.drop_first())),
    decreases items.len(),
{
    let front = items.drop_last();
    let rest = items.drop_first();
    if items.len() == 2 {
        assert(front.len() == 1 && front[0] == items[0]);
        assert(rest.len() == 1 && rest[0] == items.last());
        assert(json_items(front) == json_string(items[0]));
        assert(json_items(rest) == json_string(items[1]));
        assert(json_string(items[0]) + ","@ + json_string(items[1]) =~= json_string(items[0]) + (
        ","@ + json_string(items[1])));
    } else {
        first_item(front);
        assert(front[0] == items[0]);
        assert(front.drop_first() =~= rest.drop_last());
        assert(rest.last() == items.last());
        assert(json_items(rest) == json_items(rest.drop_last()) + ","@ + json_string(items.last()));
        assert(json_string(items[0]) + (","@ + json_items(rest.drop_last())) + ","@ + json_string(
            items.last(),
        ) =~= json_string(items[0]) + (","@ + (json_items(rest.drop_last()) + ","@ + json_string(
            items.last(),
        ))));
    }
}

proof fn items_are_unambiguous(
    a: Seq<Seq<char>>,
    b: Seq<Seq<char>>,
    x: Seq<char>,
    y: Seq<char>,
)
    requires
        json_items(a) + ("]"@ + x) == json_items(b) + ("]"@ + y),
    ensures
        a == b,
        x == y,
    decreases a.len(),
{
    reveal_strlit("]");
    reveal_strlit(",");
    reveal_strlit("\"");
    let ex = "]"@ + x;
    let ey = "]"@ + y;
    let ta = json_items(a) + ex;
    let tb = json_items(b) + ey;
    if a.len() > 1 {
        first_item(a);
    }
    if b.len() > 1 {
        first_item(b);
    }
    let ra = if a.len() > 1 {
        ","@ + (json_items(a.drop_first()) + ex)
    } else {
        ex
    };
    let rb = if b.len() > 1 {
        ","@ + (json_items(b.drop_first()) + ey)
    } else {
        ey
    };
    if a.len() > 0 {
        assert(ta =~= json_string(a[0]) + ra);
        assert(ta[0] == json_string(a[0])[0] && json_string(a[0])[0] == '"');
    } else {
        assert(ta =~= ex);
    }
    if b.len() > 0 {
        assert(tb =~= json_string(b[0]) + rb);
        assert(tb[0] == json_string(b[0])[0] && json_string(b[0])[0] == '"');
    } else {
        assert(tb =~= ey);
    }
    if a.len() == 0 || b.len() == 0 {
        assert(a.len() == 0 && b.len() == 0);
        same_rest("]"@, x, y);
        assert(a =~= b);
    } else {
        strings_are_unambiguous(a[0], b[0], ra, rb);
        assert(ra[0] == rb[0]);
        if a.len() > 1 && b.len() > 1 {
            same_rest(
                ","@,
                json_items(a.drop_first()) + ex,
                json_items(b.drop_first()) + ey,
            );
            items_are_unambiguous(a.drop_first(), b.drop_first(), x, y);
            assert(a =~= seq![a[0]] + a.drop_first());
            assert(b =~= seq![b[0]] + b.drop_first());
        } else {
            assert(a.len() == 1 && b.len() == 1);
            same_rest("]"@, x, y);
            assert(a =~= b);
        }
    }
}

/// The same holds of arrays of strings.
pub proof fn arrays_are_unambiguous(
    a: Seq<Seq<char>>,
    b: Seq<Seq<char>>,
    x: Seq<char>,
    y: Seq<char>,
)
    requires
        json_array(a) + x == json_array(b) + y,
    ensures
        a == b,
        x == y,
{
    let ra = json_items(a) + ("]"@ + x);
    let rb = json_items(b) + ("]"@ + y);
    assert(json_array(a) + x =~= "["@ + ra);
    assert(json_array(b) + y =~= "["@ + rb);
    same_rest("["@, ra, rb);
    items_are_unambiguous(a, b, x, y);
}

/// A text without quotes, backslashes and control characters is written as it stands,
/// between quotes.
pub proof fn plain_text_is_written_as_it_stands(s: Seq<char>)
    requires
        forall|i: int|
            0 <= i < s.len() ==> #[trigger] s[i] != '"' && s[i] != '\\' && s[i] as u32 >= 0x20,
    ensures
        json_string(s) == seq!['"'] + s + seq!['"'],
{
    reveal_strlit("\"");
    plain_chars(s);
    assert("\""@ =~= seq!['"']);
}

proof fn plain_chars(s: Seq<char>)
    requires
        forall|i: int|
            0 <= i < s.len() ==> #[trigger] s[i] != '"' && s[i] != '\\' && s[i] as u32 >= 0x20,
    ensures
        json_chars(s) == s,
    decreases s.len(),
{
    if s.len() > 0 {
        let front = s.drop_last();
        assert forall|i: int| 0 <= i < front.len() implies #[trigger] front[i] != '"' && front[i]
            != '\\' && front[i] as u32 >= 0x20 by {
            assert(front[i] == s[i]);
        }
        plain_chars(front);
        let c = s[s.len() - 1];
        assert(c != '"' && c != '\\' && c as u32 >= 0x20);
        assert(front + seq![c] =~= s);
    }
}

/// Texts are written one character after the other; a quote, a backslash, a tab and the
/// ends of lines with a backslash and a letter, other control characters by number.
pub proof fn how_characters_are_written(s: Seq<char>, c: char)
    ensures
        json_chars(s.push(c)) == json_chars(s) + (if c == '"' {
            seq!['\\', '"']
        } else if c == '\\' {
            seq!['\\', '\\']
        } else if c == '\n' {
            seq!['\\', 'n']
        } else if c == '\r' {
            seq!['\\', 'r']
        } else if c == '\t' {
            seq!['\\', 't']
        } else if c as u32 == 8 {
            seq!['\\', 'b']
        } else if c as u32 == 12 {
            seq!['\\', 'f']
        } else if c as u32 >= 0x20 {
            seq![c]
        } else {
            seq![
                '\\',
                'u',
                '0',
                '0',
                number::digit_char(c as int / 16),
                number::digit_char(c as int % 16),
            ]
        }),
{
    assert(s.push(c).drop_last() =~= s);
}

/// Lists are written between brackets, with commas between their items; what is not
/// there is written as null; numbers with a minus in front where they are negative.
pub proof fn how_values_are_written(items: Seq<Seq<char>>, item: Seq<char>, n: int)
    ensures
        json_array(Seq::empty()) == "["@ + "]"@,
        json_array(seq![item]) == "["@ + json_string(item) + "]"@,
        items.len() > 0 ==> json_array(items.push(item)) == "["@ + (json_items(items) + ","@
            + json_string(item)) + "]"@,
        json_optional(None) == "null"@,
        json_optional(Some(item)) == json_string(item),
        n >= 0 ==> json_int(n) == number::decimal(n as nat),
        n < 0 ==> json_int(n) == "-"@ + number::decimal((-n) as nat),
        json_bool(true) == "true"@,
        json_bool(false) == "false"@,
{
    assert(items.push(item).drop_last() =~= items);
    assert("["@ + Seq::<char>::empty() =~= "["@);
}

} // verus!
