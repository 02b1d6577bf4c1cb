//! Text primitives over strings viewed as sequences of characters: prefix,
//! suffix and substring tests, lexicographic order, decimal and hexadecimal
//! rendering, joining.
use vstd::prelude::*;
use vstd::string::*;

verus! {

broadcast use vstd::string::group_string_axioms;

/// Text as a mathematical sequence of characters.
pub type Text = Seq<char>;

/// `needle` occurs in `hay` starting at position `i`.
pub open spec fn occurs_at(hay: Text, needle: Text, i: int) -> bool {
    &&& 0 <= i
    &&& i + needle.len() <= hay.len()
    &&& hay.subrange(i, i + needle.len()) == needle
}

/// `needle` occurs somewhere in `hay`.
pub open spec fn contains_text(hay: Text, needle: Text) -> bool {
    exists|i: int| occurs_at(hay, needle, i)
}

/// `c` occurs in `s`.
pub open spec fn has_char(s: Text, c: char) -> bool {
    exists|i: int| 0 <= i < s.len() && s[i] == c
}

/// Length in characters of a string.
pub fn char_len(s: &str) -> (n: usize)
    ensures
        n == s@.len(),
{
    s.unicode_len()
}

/// The characters of a string, in order.
pub fn chars_of(s: &str) -> (v: Vec<char>)
    ensures
        v@ == s@,
{
    let n = s.unicode_len();
    let mut v: Vec<char> = Vec::new();
    let mut i: usize = 0;
    while i < n
        invariant
            n == s@.len(),
            i <= n,
            v@ == s@.subrange(0, i as int),
        decreases n - i,
    {
        v.push(s.get_char(i));
        i = i + 1;
    }
    assert(v@ == s@);
    v
}

/// The string holding exactly the given characters.
#[verifier::external_body]
pub fn text_from_chars(v: &Vec<char>) -> (s: String)
    ensures
        s@ == v@,
{
    v.iter().collect()
}

/// `needle` occurs in `hay` at character position `i`.
pub fn chars_occur_at(hay: &Vec<char>, needle: &Vec<char>, i: usize) -> (r: bool)
    requires
        i + needle.len() <= hay.len(),
    ensures
        r == occurs_at(hay@, needle@, i as int),
{
    let mut j: usize = 0;
    while j < needle.len()
        invariant
            i + needle.len() <= hay.len(),
            j <= needle@.len(),
            forall|k: int| 0 <= k < j ==> hay@[i + k] == needle@[k],
        decreases needle@.len() - j,
    {
        if hay[i + j] != needle[j] {
            assert(hay@.subrange(i as int, i + needle@.len())[j as int] != needle@[j as int]);
            return false;
        }
        j = j + 1;
    }
    assert(hay@.subrange(i as int, i + needle@.len()) =~= needle@);
    true
}

/// Whether `p` is a prefix of `s`.
pub fn starts_with(s: &str, p: &str) -> (r: bool)
    ensures
        r == p@.is_prefix_of(s@),
{
    let sc = chars_of(s);
    let pc = chars_of(p);
    if pc.len() > sc.len() {
        return false;
    }
    let r = chars_occur_at(&sc, &pc, 0);
    assert(r == (sc@.subrange(0, pc@.len() as int) == pc@));
    proof {
        if p@.is_prefix_of(s@) {
            assert(sc@.subrange(0, pc@.len() as int) =~= pc@);
        }
    }
    r
}

/// Whether `p` is a suffix of `s`.
pub fn ends_with(s: &str, p: &str) -> (r: bool)
    ensures
        r == p@.is_suffix_of(s@),
{
    let sc = chars_of(s);
    let pc = chars_of(p);
    if pc.len() > sc.len() {
        return false;
    }
    let start = sc.len() - pc.len();
    let r = chars_occur_at(&sc, &pc, start);
    proof {
        if p@.is_suffix_of(s@) {
            assert(sc@.subrange(start as int, sc@.len() as int) =~= pc@);
        }
    }
    r
}

/// Whether `needle` occurs anywhere in `hay`.
pub fn contains(hay: &str, needle: &str) -> (r: bool)
    ensures
        r == contains_text(hay@, needle@),
{
    let hc = chars_of(hay);
    let nc = chars_of(needle);
    if nc.len() > hc.len() {
        return false;
    }
    let mut i: usize = 0;
    while i < hc.len()
        invariant
            hc@ == hay@,
            nc@ == needle@,
            i <= hc@.len(),
            forall|k: int| 0 <= k < i ==> !occurs_at(hay@, needle@, k),
        decreases hc@.len() - i,
    {
        if nc.len() <= hc.len() - i && chars_occur_at(&hc, &nc, i) {
            return true;
        }
        i = i + 1;
    }
    if nc.len() == 0 {
        assert(hc@.subrange(0, 0) =~= nc@);
        assert(occurs_at(hay@, needle@, 0));
        return true;
    }
    assert forall|k: int| !occurs_at(hay@, needle@, k) by {
        if 0 <= k && k + needle@.len() <= hay@.len() {
            assert(k < i);
        }
    }
    false
}

/// Whether the character `c` occurs in `s`.
pub fn contains_char(s: &str, c: char) -> (r: bool)
    ensures
        r == has_char(s@, c),
{
    let sc = chars_of(s);
    let mut i: usize = 0;
    while i < sc.len()
        invariant
            sc@ == s@,
            i <= sc@.len(),
            forall|k: int| 0 <= k < i ==> sc@[k] != c,
        decreases sc@.len() - i,
    {
        if sc[i] == c {
            return true;
        }
        i = i + 1;
    }
    false
}

/// Equality of two strings.
pub fn text_eq(a: &str, b: &str) -> (r: bool)
    ensures
        r == (a@ == b@),
{
    let ac = chars_of(a);
    let bc = chars_of(b);
    if ac.len() != bc.len() {
        return false;
    }
    let r = chars_occur_at(&ac, &bc, 0);
    proof {
        assert(ac@.subrange(0, bc@.len() as int) =~= ac@);
    }
    r
}

/// An owned copy of a string.
pub fn copy_text(s: &str) -> (r: String)
    ensures
        r@ == s@,
{
    s.to_string()
}

/// The empty string.
pub fn empty_text() -> (r: String)
    ensures
        r@ == Seq::<char>::empty(),
{
    String::new()
}

/// `s` followed by `t`.
pub fn concat(s: &str, t: &str) -> (r: String)
    ensures
        r@ == s@ + t@,
{
    let mut r = s.to_string();
    r.append(t);
    r
}

/// Appends `t` to `s`.
pub fn push_text(s: &mut String, t: &str)
    ensures
        final(s)@ == old(s)@ + t@,
{
    s.append(t);
}


/// Appends the string `t` as a new last line of `lines`.
pub fn push_line(lines: &mut Vec<String>, t: String)
    ensures
        final(lines).deep_view() == old(lines).deep_view().push(t@),
{
    lines.push(t);
    assert(lines.deep_view() =~= old(lines).deep_view().push(t@));
}

/// `a`, the decimal digits of `n`, then `b`.
pub fn phrase(a: &str, n: u64, b: &str) -> (r: String)
    ensures
        r@ == a@ + dec(n as nat) + b@,
{
    let mut r = a.to_string();
    let d = decimal(n);
    r.append(d.as_str());
    r.append(b);
    r
}

/// The decimal digits of `n` followed by `b`.
pub fn number_phrase(n: u64, b: &str) -> (r: String)
    ensures
        r@ == dec(n as nat) + b@,
{
    let mut r = decimal(n);
    r.append(b);
    r
}

/// The character of a decimal digit.
pub open spec fn digit_char(d: nat) -> char {
    if d == 0 { '0' } else if d == 1 { '1' } else if d == 2 { '2' } else if d == 3 { '3' }
    else if d == 4 { '4' } else if d == 5 { '5' } else if d == 6 { '6' } else if d == 7 { '7' }
    else if d == 8 { '8' } else { '9' }
}

/// The character of a lowercase hexadecimal digit.
pub open spec fn hex_char(d: nat) -> char {
    if d < 10 { digit_char(d) } else if d == 10 { 'a' } else if d == 11 { 'b' } else if d == 12 { 'c' }
    else if d == 13 { 'd' } else if d == 14 { 'e' } else { 'f' }
}

/// Decimal rendering of a natural number, without leading zeros.
pub open spec fn dec(n: nat) -> Text
    decreases n,
{
    if n < 10 {
        seq![digit_char(n)]
    } else {
        dec(n / 10).push(digit_char(n % 10))
    }
}

/// Lowercase hexadecimal rendering of a natural number, without leading zeros.
pub open spec fn hex(n: nat) -> Text
    decreases n,
{
    if n < 16 {
        seq![hex_char(n)]
    } else {
        hex(n / 16).push(hex_char(n % 16))
    }
}

/// `t` with zeros in front up to `width` characters.
pub open spec fn zero_pad(t: Text, width: nat) -> Text {
    if t.len() >= width {
        t
    } else {
        Seq::new((width - t.len()) as nat, |i: int| '0') + t
    }
}

fn digit(d: u64) -> (c: char)
    requires
        d < 16,
    ensures
        c == hex_char(d as nat),
{
    match d {
        0 => '0',
        1 => '1',
        2 => '2',
        3 => '3',
        4 => '4',
        5 => '5',
        6 => '6',
        7 => '7',
        8 => '8',
        9 => '9',
        10 => 'a',
        11 => 'b',
        12 => 'c',
        13 => 'd',
        14 => 'e',
        _ => 'f',
    }
}

fn push_decimal(n: u64, out: &mut Vec<char>)
    ensures
        final(out)@ == old(out)@ + dec(n as nat),
    decreases n,
{
    if n >= 10 {
        push_decimal(n / 10, out);
    }
    out.push(digit(n % 10));
    proof {
        if n >= 10 {
            assert(dec(n as nat) == dec((n / 10) as nat).push(digit_char((n % 10) as nat)));
        }
    }
    assert(out@ =~= old(out)@ + dec(n as nat));
}

fn push_hex(n: u64, out: &mut Vec<char>)
    ensures
        final(out)@ == old(out)@ + hex(n as nat),
    decreases n,
{
    if n >= 16 {
        push_hex(n / 16, out);
    }
    out.push(digit(n % 16));
    assert(out@ =~= old(out)@ + hex(n as nat));
}

/// Decimal rendering of `n`, as `format!("{n}")` writes it.
pub fn decimal(n: u64) -> (s: String)
    ensures
        s@ == dec(n as nat),
{
    let mut out: Vec<char> = Vec::new();
    push_decimal(n, &mut out);
    assert(out@ =~= dec(n as nat));
    text_from_chars(&out)
}

/// Hexadecimal rendering of `n` with the `0x` prefix, zero padded to `width`
/// characters in all, as `format!("{n:#0w$x}")` writes it.
pub fn hex_with_prefix(n: u64, width: usize) -> (s: String)
    requires
        width >= 2,
    ensures
        s@ == seq!['0', 'x'] + zero_pad(hex(n as nat), (width - 2) as nat),
{
    let mut digits: Vec<char> = Vec::new();
    push_hex(n, &mut digits);
    let target = width - 2;
    let pad: usize = if digits.len() < target {
        target - digits.len()
    } else {
        0
    };
    let mut out: Vec<char> = Vec::new();
    out.push('0');
    out.push('x');
    let mut k: usize = 0;
    while k < pad
        invariant
            k <= pad,
            out@ == seq!['0', 'x'] + Seq::new(k as nat, |i: int| '0'),
        decreases pad - k,
    {
        out.push('0');
        k = k + 1;
        assert(out@ =~= seq!['0', 'x'] + Seq::new(k as nat, |i: int| '0'));
    }
    let mut j: usize = 0;
    while j < digits.len()
        invariant
            j <= digits@.len(),
            out@ == seq!['0', 'x'] + Seq::new(pad as nat, |i: int| '0') + digits@.take(j as int),
        decreases digits@.len() - j,
    {
        out.push(digits[j]);
        j = j + 1;
        assert(out@ =~= seq!['0', 'x'] + Seq::new(pad as nat, |i: int| '0') + digits@.take(j as int));
    }
    assert(digits@.take(digits@.len() as int) =~= digits@);
    assert(digits@ == hex(n as nat));
    if pad == 0 {
        assert(Seq::new(0, |i: int| '0') + digits@ =~= digits@);
    }
    assert(out@ =~= seq!['0', 'x'] + zero_pad(hex(n as nat), (width - 2) as nat));
    text_from_chars(&out)
}

/// The parts joined with the separator between neighbours.
pub open spec fn join(parts: Seq<Text>, sep: Text) -> Text
    decreases parts.len(),
{
    if parts.len() == 0 {
        Seq::empty()
    } else if parts.len() == 1 {
        parts[0]
    } else {
        join(parts.drop_last(), sep) + sep + parts.last()
    }
}

/// The strings of `parts` joined with `sep`, as `[String]::join` does.
pub fn join_texts(parts: &Vec<String>, sep: &str) -> (s: String)
    ensures
        s@ == join(parts.deep_view(), sep@),
{
    let mut s = String::new();
    let mut i: usize = 0;
    while i < parts.len()
        invariant
            i <= parts@.len(),
            s@ == join(parts.deep_view().take(i as int), sep@),
        decreases parts@.len() - i,
    {
        assert(parts.deep_view().take(i + 1).drop_last() =~= parts.deep_view().take(i as int));
        if i > 0 {
            s.append(sep);
        } else {
            assert(join(parts.deep_view().take(0), sep@) =~= Seq::<char>::empty());
        }
        s.append(parts[i].as_str());
        i = i + 1;
    }
    assert(parts.deep_view().take(parts@.len() as int) =~= parts.deep_view());
    s
}

} // verus!
