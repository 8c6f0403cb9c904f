//! Colours written as `rgb(r, g, b)` text: parsing, averaging and printing.
use vstd::prelude::*;

verus! {

/// An RGB colour with one byte per channel.
#[derive(Clone, Copy, Debug, PartialEq, Eq, Structural)]
pub struct Rgb {
    pub r: u8,
    pub g: u8,
    pub b: u8,
}

/// The colour used for a connection line when a colour cannot be read.
pub const FALLBACK_COLOR: &'static str = "rgba(150, 150, 220, 0.5)";

/// The characters that `char::is_whitespace` accepts (Unicode `White_Space`).
pub open spec fn is_space(c: char) -> bool {
    let u = c as u32;
    (0x09 <= u && u <= 0x0d) || u == 0x20 || u == 0x85 || u == 0xa0 || u == 0x1680 || (0x2000
        <= u && u <= 0x200a) || u == 0x2028 || u == 0x2029 || u == 0x202f || u == 0x205f || u
        == 0x3000
}

/// `s` without its leading white space.
pub open spec fn trim_start(s: Seq<char>) -> Seq<char>
    decreases s.len(),
{
    if s.len() > 0 && is_space(s[0]) {
        trim_start(s.drop_first())
    } else {
        s
    }
}

/// `s` without its trailing white space.
pub open spec fn trim_end(s: Seq<char>) -> Seq<char>
    decreases s.len(),
{
    if s.len() > 0 && is_space(s.last()) {
        trim_end(s.drop_last())
    } else {
        s
    }
}

/// `s` without leading and trailing white space.
pub open spec fn trim(s: Seq<char>) -> Seq<char> {
    trim_end(trim_start(s))
}

pub open spec fn is_digit(c: char) -> bool {
    '0' <= c && c <= '9'
}

pub open spec fn all_digits(s: Seq<char>) -> bool {
    forall|i: int| 0 <= i < s.len() ==> is_digit(#[trigger] s[i])
}

/// The number that a string of decimal digits denotes.
pub open spec fn digits_value(s: Seq<char>) -> nat
    decreases s.len(),
{
    if s.len() == 0 {
        0
    } else {
        digits_value(s.drop_last()) * 10 + ((s.last() as u32) - ('0' as u32)) as nat
    }
}

/// What `str::parse::<u8>` gives: an optional `+`, then one or more decimal digits
/// whose value is at most 255.
pub open spec fn parse_u8_spec(s: Seq<char>) -> Option<u8> {
    let d = if s.len() > 0 && s[0] == '+' {
        s.drop_first()
    } else {
        s
    };
    if d.len() > 0 && all_digits(d) && digits_value(d) <= 255 {
        Some(digits_value(d) as u8)
    } else {
        None
    }
}

/// The index of the first comma of `s` at or after `from`, or `s.len()` if there is none.
pub open spec fn find_comma(s: Seq<char>, from: int) -> int
    decreases s.len() - from,
{
    if from >= s.len() {
        s.len() as int
    } else if s[from] == ',' {
        from
    } else {
        find_comma(s, from + 1)
    }
}

/// Three comma-separated channel values, each with white space around it.
pub open spec fn parse_channels(s: Seq<char>) -> Option<(u8, u8, u8)> {
    let i = find_comma(s, 0);
    let j = find_comma(s, i + 1);
    if i >= s.len() || j >= s.len() || find_comma(s, j + 1) < s.len() {
        None
    } else {
        match (
            parse_u8_spec(trim(s.subrange(0, i))),
            parse_u8_spec(trim(s.subrange(i + 1, j))),
            parse_u8_spec(trim(s.subrange(j + 1, s.len() as int))),
        ) {
            (Some(r), Some(g), Some(b)) => Some((r, g, b)),
            _ => None,
        }
    }
}

/// The channels of a colour written `rgb(r, g, b)`, white space around the whole and
/// around each channel allowed.
pub open spec fn parse_rgb_spec(s: Seq<char>) -> Option<(u8, u8, u8)> {
    let t = trim(s);
    if t.len() >= 5 && t.subrange(0, 4) == seq!['r', 'g', 'b', '('] && t.last() == ')' {
        parse_channels(t.subrange(4, t.len() - 1))
    } else {
        None
    }
}

pub open spec fn digit_char(d: int) -> char {
    if d == 0 {
        '0'
    } else if d == 1 {
        '1'
    } else if d == 2 {
        '2'
    } else if d == 3 {
        '3'
    } else if d == 4 {
        '4'
    } else if d == 5 {
        '5'
    } else if d == 6 {
        '6'
    } else if d == 7 {
        '7'
    } else if d == 8 {
        '8'
    } else {
        '9'
    }
}

/// The decimal text of a byte, without leading zeros.
pub open spec fn decimal(n: u8) -> Seq<char> {
    if n < 10 {
        seq![digit_char(n as int)]
    } else if n < 100 {
        seq![digit_char((n / 10) as int), digit_char((n % 10) as int)]
    } else {
        seq![digit_char((n / 100) as int), digit_char(((n / 10) % 10) as int), digit_char((n % 10) as int)]
    }
}

/// The text `rgb(r,g,b)` of a colour.
pub open spec fn css_spec(c: Rgb) -> Seq<char> {
    seq!['r', 'g', 'b', '('] + decimal(c.r) + seq![','] + decimal(c.g) + seq![','] + decimal(c.b)
        + seq![')']
}

/// The channel-wise mean of two colours, rounded down.
pub open spec fn mix_spec(a: Rgb, b: Rgb) -> Rgb {
    Rgb {
        r: ((a.r + b.r) / 2) as u8,
        g: ((a.g + b.g) / 2) as u8,
        b: ((a.b + b.b) / 2) as u8,
    }
}

/// What `mix_colors` returns on two texts.
pub open spec fn mix_colors_spec(a: Seq<char>, b: Seq<char>) -> Seq<char> {
    match (parse_rgb_spec(a), parse_rgb_spec(b)) {
        (Some((r1, g1, b1)), Some((r2, g2, b2))) => css_spec(
            mix_spec(Rgb { r: r1, g: g1, b: b1 }, Rgb { r: r2, g: g2, b: b2 }),
        ),
        _ => FALLBACK_COLOR@,
    }
}

impl Rgb {
    /// The colour's text, `rgb(r,g,b)`.
    pub fn to_css(&self) -> (s: String)
        ensures
            s@ == css_spec(*self),
    {
        let mut s = String::from_str("rgb(");
        proof {
            reveal_strlit("rgb(");
        }
        push_decimal(&mut s, self.r);
        s.append(",");
        proof {
            reveal_strlit(",");
        }
        push_decimal(&mut s, self.g);
        s.append(",");
        push_decimal(&mut s, self.b);
        s.append(")");
        proof {
            reveal_strlit(")");
            assert(s@ =~= css_spec(*self));
        }
        s
    }
}

/// The channel-wise mean of two colours.
pub fn mix_rgb(a: Rgb, b: Rgb) -> (m: Rgb)
    ensures
        m == mix_spec(a, b),
{
    Rgb {
        r: ((a.r as u16 + b.r as u16) / 2) as u8,
        g: ((a.g as u16 + b.g as u16) / 2) as u8,
        b: ((a.b as u16 + b.b as u16) / 2) as u8,
    }
}

fn digit_str(d: u8) -> (s: &'static str)
    requires
        d < 10,
    ensures
        s@ == seq![digit_char(d as int)],
{
    proof {
        reveal_strlit("0");
        reveal_strlit("1");
        reveal_strlit("2");
        reveal_strlit("3");
        reveal_strlit("4");
        reveal_strlit("5");
        reveal_strlit("6");
        reveal_strlit("7");
        reveal_strlit("8");
        reveal_strlit("9");
    }
    let s = match d {
        0 => "0",
        1 => "1",
        2 => "2",
        3 => "3",
        4 => "4",
        5 => "5",
        6 => "6",
        7 => "7",
        8 => "8",
        _ => "9",
    };
    assert(s@ =~= seq![digit_char(d as int)]);
    s
}

fn push_decimal(s: &mut String, n: u8)
    ensures
        final(s)@ == old(s)@ + decimal(n),
{
    if n >= 100 {
        s.append(digit_str(n / 100));
    }
    if n >= 10 {
        s.append(digit_str((n / 10) % 10));
    }
    s.append(digit_str(n % 10));
    assert(s@ =~= old(s)@ + decimal(n));
}

proof fn lemma_digit(d: int)
    requires
        0 <= d <= 9,
    ensures
        digit_char(d) as u32 == 0x30 + d,
        is_digit(digit_char(d)),
        !is_space(digit_char(d)),
        digit_char(d) != ',',
        digit_char(d) != '+',
        ((digit_char(d) as u32) - ('0' as u32)) as nat == d,
{
}

/// The first comma of `s` from `from` on is at `i` when none comes before it.
proof fn lemma_find_comma_at(s: Seq<char>, from: int, i: int)
    requires
        0 <= from <= i <= s.len(),
        forall|k: int| from <= k < i ==> s[k] != ',',
        i < s.len() ==> s[i] == ',',
    ensures
        find_comma(s, from) == i,
    decreases i - from,
{
    if from < i {
        lemma_find_comma_at(s, from + 1, i);
    }
}

/// A text without white space at either end is its own trim.
proof fn lemma_trim_same(s: Seq<char>)
    requires
        s.len() > 0,
        !is_space(s[0]),
        !is_space(s.last()),
    ensures
        trim(s) == s,
{
    assert(trim_start(s) == s);
    assert(trim_end(s) == s);
}

proof fn lemma_push_digit(s: Seq<char>, d: int)
    requires
        0 <= d <= 9,
    ensures
        digits_value(s.push(digit_char(d))) == digits_value(s) * 10 + d,
{
    lemma_digit(d);
    assert(s.push(digit_char(d)).drop_last() =~= s);
}

proof fn lemma_decimal(n: u8)
    ensures
        1 <= decimal(n).len() <= 3,
        forall|k: int|
            0 <= k < decimal(n).len() ==> is_digit(#[trigger] decimal(n)[k]) && !is_space(
                decimal(n)[k],
            ) && decimal(n)[k] != ',' && decimal(n)[k] != '+',
        parse_u8_spec(decimal(n)) == Some(n),
        trim(decimal(n)) == decimal(n),
{
    let s = decimal(n);
    let a = (n / 100) as int;
    let b = ((n / 10) % 10) as int;
    let c = (n % 10) as int;
    let t = (n / 10) as int;
    lemma_digit(c);
    let e = Seq::<char>::empty();
    assert(digits_value(e) == 0);
    if n < 10 {
        lemma_push_digit(e, c);
        assert(s =~= e.push(digit_char(c)));
    } else if n < 100 {
        lemma_digit(t);
        lemma_push_digit(e, t);
        lemma_push_digit(e.push(digit_char(t)), c);
        assert(s =~= e.push(digit_char(t)).push(digit_char(c)));
    } else {
        lemma_digit(a);
        lemma_digit(b);
        lemma_push_digit(e, a);
        lemma_push_digit(e.push(digit_char(a)), b);
        lemma_push_digit(e.push(digit_char(a)).push(digit_char(b)), c);
        assert(s =~= e.push(digit_char(a)).push(digit_char(b)).push(digit_char(c)));
    }
    assert(all_digits(s));
    lemma_trim_same(s);
}

/// The text of a colour reads back as that colour.
pub proof fn lemma_css_round_trip(c: Rgb)
    ensures
        parse_rgb_spec(css_spec(c)) == Some((c.r, c.g, c.b)),
{
    let dr = decimal(c.r);
    let dg = decimal(c.g);
    let db = decimal(c.b);
    lemma_decimal(c.r);
    lemma_decimal(c.g);
    lemma_decimal(c.b);
    let s = css_spec(c);
    assert(s[0] == 'r');
    assert(s.last() == ')');
    lemma_trim_same(s);
    let inner = s.subrange(4, s.len() - 1);
    assert(s.subrange(0, 4) =~= seq!['r', 'g', 'b', '(']);
    assert(inner =~= dr + seq![','] + dg + seq![','] + db);
    let i = dr.len() as int;
    let j = i + 1 + dg.len();
    assert forall|k: int| 0 <= k < i implies inner[k] != ',' by {
        assert(inner[k] == dr[k]);
    }
    lemma_find_comma_at(inner, 0, i);
    assert forall|k: int| i + 1 <= k < j implies inner[k] != ',' by {
        assert(inner[k] == dg[k - i - 1]);
    }
    lemma_find_comma_at(inner, i + 1, j);
    assert forall|k: int| j + 1 <= k < inner.len() implies inner[k] != ',' by {
        assert(inner[k] == db[k - j - 1]);
    }
    lemma_find_comma_at(inner, j + 1, inner.len() as int);
    assert(inner.subrange(0, i) =~= dr);
    assert(inner.subrange(i + 1, j) =~= dg);
    assert(inner.subrange(j + 1, inner.len() as int) =~= db);
}

/// The mean of two readable colours reads back as that mean.
pub proof fn lemma_mix_reads_back(a: Seq<char>, b: Seq<char>)
    requires
        parse_rgb_spec(a).is_some(),
        parse_rgb_spec(b).is_some(),
    ensures
        ({
            let (r1, g1, b1) = parse_rgb_spec(a).unwrap();
            let (r2, g2, b2) = parse_rgb_spec(b).unwrap();
            let m = mix_spec(Rgb { r: r1, g: g1, b: b1 }, Rgb { r: r2, g: g2, b: b2 });
            parse_rgb_spec(mix_colors_spec(a, b)) == Some((m.r, m.g, m.b))
        }),
{
    let (r1, g1, b1) = parse_rgb_spec(a).unwrap();
    let (r2, g2, b2) = parse_rgb_spec(b).unwrap();
    lemma_css_round_trip(mix_spec(Rgb { r: r1, g: g1, b: b1 }, Rgb { r: r2, g: g2, b: b2 }));
}

/// Whether `c` is white space.
fn is_space_char(c: char) -> (r: bool)
    ensures
        r == is_space(c),
{
    let u = c as u32;
    (0x09 <= u && u <= 0x0d) || u == 0x20 || u == 0x85 || u == 0xa0 || u == 0x1680 || (0x2000
        <= u && u <= 0x200a) || u == 0x2028 || u == 0x2029 || u == 0x202f || u == 0x205f || u
        == 0x3000
}

/// The characters of a string, one element each.
fn chars_of(s: &str) -> (v: Vec<char>)
    ensures
        v@ == s@,
{
    let n = s.unicode_len();
    let mut v: Vec<char> = Vec::new();
    let mut i: usize = 0;
    while i < n
        invariant
            n == s@.len(),
            i <= n,
            v@ == s@.subrange(0, i as int),
        decreases n - i,
    {
        v.push(s.get_char(i));
        i = i + 1;
        assert(v@ =~= s@.subrange(0, i as int));
    }
    assert(v@ =~= s@);
    v
}

/// The elements of `v` from `lo` up to `hi`.
fn slice_chars(v: &Vec<char>, lo: usize, hi: usize) -> (r: Vec<char>)
    requires
        lo <= hi <= v@.len(),
    ensures
        r@ == v@.subrange(lo as int, hi as int),
{
    let mut r: Vec<char> = Vec::new();
    let mut i: usize = lo;
    while i < hi
        invariant
            lo <= i <= hi <= v@.len(),
            r@ == v@.subrange(lo as int, i as int),
        decreases hi - i,
    {
        r.push(v[i]);
        i = i + 1;
        assert(r@ =~= v@.subrange(lo as int, i as int));
    }
    r
}

/// `v` without leading and trailing white space.
fn trimmed(v: &Vec<char>) -> (r: Vec<char>)
    ensures
        r@ == trim(v@),
{
    let n = v.len();
    let mut a: usize = 0;
    assert(v@.subrange(0, n as int) =~= v@);
    while a < n && is_space_char(v[a])
        invariant
            a <= n == v@.len(),
            trim_start(v@) == trim_start(v@.subrange(a as int, n as int)),
        decreases n - a,
    {
        assert(v@.subrange(a as int, n as int).drop_first() =~= v@.subrange(a + 1, n as int));
        a = a + 1;
    }
    assert(trim_start(v@) == v@.subrange(a as int, n as int));
    let mut b: usize = n;
    while b > a && is_space_char(v[b - 1])
        invariant
            a <= b <= n == v@.len(),
            trim(v@) == trim_end(v@.subrange(a as int, b as int)),
        decreases b,
    {
        assert(v@.subrange(a as int, b as int).drop_last() =~= v@.subrange(a as int, b - 1));
        b = b - 1;
    }
    slice_chars(v, a, b)
}

/// The index of the first comma of `v` at or after `from`, or the length of `v`.
fn find_comma_exec(v: &Vec<char>, from: usize) -> (r: usize)
    requires
        from <= v@.len(),
    ensures
        r == find_comma(v@, from as int),
        from <= r <= v@.len(),
{
    let mut i: usize = from;
    while i < v.len() && v[i] != ','
        invariant
            from <= i <= v@.len(),
            find_comma(v@, i as int) == find_comma(v@, from as int),
        decreases v@.len() - i,
    {
        i = i + 1;
    }
    i
}

/// A byte written in decimal, as `str::parse::<u8>` reads it.
fn parse_u8_chars(v: &Vec<char>) -> (r: Option<u8>)
    ensures
        r == parse_u8_spec(v@),
{
    let n = v.len();
    let start: usize = if n > 0 && v[0] == '+' {
        1
    } else {
        0
    };
    let ghost d = v@.subrange(start as int, n as int);
    assert(d =~= (if v@.len() > 0 && v@[0] == '+' {
        v@.drop_first()
    } else {
        v@
    }));
    if start == n {
        return None;
    }
    let mut acc: u32 = 0;
    let mut i: usize = start;
    while i < n
        invariant
            start <= i <= n == v@.len(),
            d == v@.subrange(start as int, n as int),
            d == (if v@.len() > 0 && v@[0] == '+' {
                v@.drop_first()
            } else {
                v@
            }),
            all_digits(v@.subrange(start as int, i as int)),
            acc == (if digits_value(v@.subrange(start as int, i as int)) < 256 {
                digits_value(v@.subrange(start as int, i as int))
            } else {
                256
            }),
        decreases n - i,
    {
        let c = v[i];
        if !('0' <= c && c <= '9') {
            assert(d[i - start] == c);
            assert(!is_digit(d[i - start]));
            return None;
        }
        let ghost p = v@.subrange(start as int, i + 1);
        assert(p.drop_last() =~= v@.subrange(start as int, i as int));
        let next = acc * 10 + (c as u32 - '0' as u32);
        acc = if next < 256 {
            next
        } else {
            256
        };
        i = i + 1;
    }
    assert(v@.subrange(start as int, i as int) =~= d);
    if acc < 256 {
        Some(acc as u8)
    } else {
        None
    }
}

/// The channels of a colour written `rgb(r, g, b)`, or `None` where the text is not of
/// that form or a channel is not a byte.
pub fn parse_rgb(color: &str) -> (r: Option<(u8, u8, u8)>)
    ensures
        r == parse_rgb_spec(color@),
{
    let v = chars_of(color);
    let t = trimmed(&v);
    let n = t.len();
    if !(n >= 5 && t[0] == 'r' && t[1] == 'g' && t[2] == 'b' && t[3] == '(' && t[n - 1] == ')') {
        proof {
            if n >= 5 && t@.subrange(0, 4) == seq!['r', 'g', 'b', '('] {
                assert(t@[0] == t@.subrange(0, 4)[0]);
                assert(t@[1] == t@.subrange(0, 4)[1]);
                assert(t@[2] == t@.subrange(0, 4)[2]);
                assert(t@[3] == t@.subrange(0, 4)[3]);
            }
        }
        return None;
    }
    assert(t@.subrange(0, 4) =~= seq!['r', 'g', 'b', '(']);
    let inner = slice_chars(&t, 4, n - 1);
    let m = inner.len();
    let i = find_comma_exec(&inner, 0);
    if i >= m {
        return None;
    }
    let j = find_comma_exec(&inner, i + 1);
    if j >= m {
        return None;
    }
    let k = find_comma_exec(&inner, j + 1);
    if k < m {
        return None;
    }
    let r = parse_u8_chars(&trimmed(&slice_chars(&inner, 0, i)));
    let g = parse_u8_chars(&trimmed(&slice_chars(&inner, i + 1, j)));
    let b = parse_u8_chars(&trimmed(&slice_chars(&inner, j + 1, m)));
    match (r, g, b) {
        (Some(r), Some(g), Some(b)) => Some((r, g, b)),
        _ => None,
    }
}

/// The mean of two colours written `rgb(r, g, b)`, as `rgb(r,g,b)`; the fallback colour
/// where either cannot be read.
pub fn mix_colors(color1: &str, color2: &str) -> (s: String)
    ensures
        s@ == mix_colors_spec(color1@, color2@),
{
    match (parse_rgb(color1), parse_rgb(color2)) {
        (Some((r1, g1, b1)), Some((r2, g2, b2))) => {
            mix_rgb(Rgb { r: r1, g: g1, b: b1 }, Rgb { r: r2, g: g2, b: b2 }).to_css()
        },
        _ => String::from_str(FALLBACK_COLOR),
    }
}

} // verus!
