//! Text helpers: names decoded from fixed-size byte fields, file-system
//! friendly names, decimal numbers and simple character transformations.

use vstd::prelude::*;

verus! {

/// Collecting characters into a `String` (std's `FromIterator<char>`): the
/// string holds exactly those characters, in order.
#[verifier::external_body]
pub(crate) fn string_from_chars(v: &Vec<char>) -> (r: String)
    ensures
        r@ == v@,
{
    v.iter().collect()
}

/// The characters of a string slice.
pub fn str_chars(s: &str) -> (r: Vec<char>)
    ensures
        r@ == s@,
{
    let mut v: Vec<char> = Vec::new();
    for c in it: s.chars()
        invariant
            it.seq() == s@,
            v@ == it.seq().take(it.index() as int),
    {
        v.push(c);
        assert(v@ =~= it.seq().take(it.index() + 1));
    }
    v
}


/// The bytes before the first NUL byte.
pub open spec fn until_nul(s: Seq<u8>) -> Seq<u8>
    decreases s.len(),
{
    if s.len() == 0 {
        s
    } else if s[0] == 0 {
        Seq::empty()
    } else {
        seq![s[0]] + until_nul(s.drop_first())
    }
}

/// A byte of a stored name as a character: printable ASCII stays, anything
/// else becomes a space.
pub open spec fn name_char(b: u8) -> char {
    if 0x20 <= b <= 0x7e { b as char } else { ' ' }
}

/// The characters without their trailing spaces.
pub open spec fn trim_end_spaces(c: Seq<char>) -> Seq<char>
    decreases c.len(),
{
    if c.len() > 0 && c.last() == ' ' { trim_end_spaces(c.drop_last()) } else { c }
}

/// A name stored in a fixed-size field: the bytes up to the first NUL, each
/// shown as a printable character, without trailing spaces.
pub open spec fn decoded_name(s: Seq<u8>) -> Seq<char> {
    trim_end_spaces(until_nul(s).map_values(|b: u8| name_char(b)))
}

proof fn lemma_until_nul(s: Seq<u8>, n: int)
    requires
        0 <= n <= s.len(),
        forall|i: int| 0 <= i < n ==> s[i] != 0,
        n == s.len() || s[n] == 0,
    ensures
        until_nul(s) == s.take(n),
    decreases s.len(),
{
    if s.len() > 0 && n > 0 {
        lemma_until_nul(s.drop_first(), n - 1);
        assert(seq![s[0]] + s.drop_first().take(n - 1) =~= s.take(n));
    } else if s.len() > 0 {
        assert(s.take(0) =~= Seq::<u8>::empty());
    }
}

/// Remove trailing spaces.
fn trim_end_spaces_vec(v: &mut Vec<char>)
    ensures
        final(v)@ == trim_end_spaces(old(v)@),
{
    while v.len() > 0 && v[v.len() - 1] == ' '
        invariant
            trim_end_spaces(v@) == trim_end_spaces(old(v)@),
        decreases v@.len(),
    {
        let ghost before = v@;
        v.pop();
        assert(v@ =~= before.drop_last());
    }
}

/// Decode a name stored in a fixed-size byte field.
pub fn read_str(bytes: &[u8]) -> (r: String)
    ensures
        r@ == decoded_name(bytes@),
{
    let mut n: usize = 0;
    while n < bytes.len() && bytes[n] != 0
        invariant
            n <= bytes@.len(),
            forall|i: int| 0 <= i < n ==> bytes@[i] != 0,
        decreases bytes@.len() - n,
    {
        n += 1;
    }
    proof {
        lemma_until_nul(bytes@, n as int);
    }
    let mut v: Vec<char> = Vec::new();
    let mut i: usize = 0;
    while i < n
        invariant
            n <= bytes@.len(),
            i <= n,
            v@ =~= bytes@.take(i as int).map_values(|b: u8| name_char(b)),
        decreases n - i,
    {
        let b = bytes[i];
        let c: char = if 0x20 <= b && b <= 0x7e { b as char } else { ' ' };
        v.push(c);
        i += 1;
        assert(v@ =~= bytes@.take(i as int).map_values(|b: u8| name_char(b)));
    }
    trim_end_spaces_vec(&mut v);
    string_from_chars(&v)
}

/// A character as it may stand in a file name: those that file systems
/// refuse (`\ / : * ? " < > |`) become `_`.
pub open spec fn os_char(c: char) -> char {
    if c == '\\' || c == '/' || c == ':' || c == '*' || c == '?' || c == '"' || c == '<' || c == '>' || c == '|' {
        '_'
    } else {
        c
    }
}

/// A text as it may stand in a file name.
pub open spec fn os_text(c: Seq<char>) -> Seq<char> {
    c.map_values(|x: char| os_char(x))
}

/// Make a text usable as (part of) a file name.
pub fn to_str_os(s: &str) -> (r: String)
    ensures
        r@ == os_text(s@),
{
    let c = str_chars(s);
    let mut v: Vec<char> = Vec::new();
    let mut i: usize = 0;
    while i < c.len()
        invariant
            i <= c@.len(),
            c@ == s@,
            v@ == os_text(s@).take(i as int),
        decreases c@.len() - i,
    {
        let x = c[i];
        let y = if x == '\\' || x == '/' || x == ':' || x == '*' || x == '?' || x == '"' || x == '<' || x == '>' || x == '|' {
            '_'
        } else {
            x
        };
        v.push(y);
        i += 1;
        assert(v@ =~= os_text(s@).take(i as int));
    }
    assert(v@ =~= os_text(s@));
    string_from_chars(&v)
}

/// Every `from` character replaced by `to`.
pub open spec fn replaced(c: Seq<char>, from: char, to: char) -> Seq<char> {
    c.map_values(|x: char| if x == from { to } else { x })
}

/// Replace every `from` character of a text by `to`.
pub fn replace_char(s: &str, from: char, to: char) -> (r: String)
    ensures
        r@ == replaced(s@, from, to),
{
    let c = str_chars(s);
    let mut v: Vec<char> = Vec::new();
    let mut i: usize = 0;
    while i < c.len()
        invariant
            i <= c@.len(),
            c@ == s@,
            v@ == replaced(s@, from, to).take(i as int),
        decreases c@.len() - i,
    {
        let x = c[i];
        v.push(if x == from { to } else { x });
        i += 1;
        assert(v@ =~= replaced(s@, from, to).take(i as int));
    }
    assert(v@ =~= replaced(s@, from, to));
    string_from_chars(&v)
}

pub open spec fn digit_char(d: int) -> char {
    if d == 0 { '0' } else if d == 1 { '1' } else if d == 2 { '2' } else if d == 3 { '3' } else if d == 4 { '4' }
    else if d == 5 { '5' } else if d == 6 { '6' } else if d == 7 { '7' } else if d == 8 { '8' } else { '9' }
}

/// The decimal digits of a number, without leading zeros.
pub open spec fn decimal(n: nat) -> Seq<char>
    decreases n,
{
    if n < 10 { seq![digit_char(n as int)] } else { decimal(n / 10).push(digit_char((n % 10) as int)) }
}

/// A number's decimal digits, left-padded with zeros to at least `width`.
pub open spec fn zero_padded(n: nat, width: nat) -> Seq<char> {
    let d = decimal(n);
    Seq::new(if width > d.len() { (width - d.len()) as nat } else { 0 }, |i: int| '0') + d
}

fn digit(d: u64) -> (c: char)
    requires
        d < 10,
    ensures
        c == digit_char(d as int),
{
    if d == 0 { '0' } else if d == 1 { '1' } else if d == 2 { '2' } else if d == 3 { '3' } else if d == 4 { '4' }
    else if d == 5 { '5' } else if d == 6 { '6' } else if d == 7 { '7' } else if d == 8 { '8' } else { '9' }
}

/// The decimal digits of a number.
pub fn decimal_chars(n: u64) -> (r: Vec<char>)
    ensures
        r@ == decimal(n as nat),
{
    let mut m = n;
    let mut acc: Vec<char> = Vec::new();
    while m >= 10
        invariant
            decimal(n as nat) == decimal(m as nat) + acc@,
        decreases m,
    {
        let ghost a = acc@;
        let ghost prev = m;
        acc.insert(0, digit(m % 10));
        m = m / 10;
        assert(decimal(prev as nat) == decimal(m as nat).push(digit_char((prev % 10) as int)));
        assert(decimal(m as nat).push(digit_char((prev % 10) as int)) + a =~= decimal(m as nat) + acc@);
    }
    let ghost a = acc@;
    acc.insert(0, digit(m));
    assert(acc@ =~= decimal(m as nat) + a);
    acc
}

/// A number in decimal, left-padded with zeros to at least `width` digits.
pub fn zero_pad(n: usize, width: usize) -> (r: Vec<char>)
    ensures
        r@ == zero_padded(n as nat, width as nat),
{
    let d = decimal_chars(n as u64);
    let mut v: Vec<char> = Vec::new();
    let pad: usize = if width > d.len() { width - d.len() } else { 0 };
    let mut i: usize = 0;
    while i < pad
        invariant
            i <= pad,
            v@ == Seq::new(i as nat, |k: int| '0'),
        decreases pad - i,
    {
        v.push('0');
        i += 1;
        assert(v@ =~= Seq::new(i as nat, |k: int| '0'));
    }
    let mut d = d;
    v.append(&mut d);
    v
}

/// The text without its leading and trailing `c` characters.
pub open spec fn trim_char(s: Seq<char>, c: char) -> Seq<char>
    decreases s.len(),
{
    if s.len() > 0 && s[0] == c {
        trim_char(s.drop_first(), c)
    } else if s.len() > 0 && s.last() == c {
        trim_char(s.drop_last(), c)
    } else {
        s
    }
}

/// Remove the leading and trailing `c` characters of a text.
pub fn trim_chars(s: &str, c: char) -> (r: Vec<char>)
    ensures
        r@ == trim_char(s@, c),
{
    let v = str_chars(s);
    let mut lo: usize = 0;
    let mut hi: usize = v.len();
    assert(v@.subrange(0, v@.len() as int) =~= v@);
    while lo < hi && (v[lo] == c || v[hi - 1] == c)
        invariant
            lo <= hi <= v@.len(),
            trim_char(v@.subrange(lo as int, hi as int), c) == trim_char(s@, c),
            v@ == s@,
        decreases hi - lo,
    {
        let ghost cur = v@.subrange(lo as int, hi as int);
        if v[lo] == c {
            assert(cur.drop_first() =~= v@.subrange(lo + 1, hi as int));
            lo += 1;
        } else {
            assert(cur.drop_last() =~= v@.subrange(lo as int, hi - 1));
            hi -= 1;
        }
    }
    let mut out: Vec<char> = Vec::new();
    let mut i = lo;
    while i < hi
        invariant
            lo <= i <= hi <= v@.len(),
            out@ == v@.subrange(lo as int, i as int),
        decreases hi - i,
    {
        out.push(v[i]);
        i += 1;
        assert(out@ =~= v@.subrange(lo as int, i as int));
    }
    out
}

/// The text with the suffix `pat` removed as often as it ends with it.
pub open spec fn trim_end_all(s: Seq<char>, pat: Seq<char>) -> Seq<char>
    decreases s.len(),
{
    if pat.len() > 0 && s.len() >= pat.len() && s.subrange(s.len() - pat.len(), s.len() as int) == pat {
        trim_end_all(s.subrange(0, s.len() - pat.len()), pat)
    } else {
        s
    }
}

fn ends_with(v: &Vec<char>, n: usize, pat: &Vec<char>) -> (r: bool)
    requires
        n <= v@.len(),
    ensures
        r == (n >= pat@.len() && v@.subrange(n - pat@.len(), n as int) == pat@),
{
    if n < pat.len() {
        return false;
    }
    let start = n - pat.len();
    let mut i: usize = 0;
    while i < pat.len()
        invariant
            start + pat@.len() == n,
            n <= v@.len(),
            i <= pat@.len(),
            forall|k: int| 0 <= k < i ==> v@[start + k] == pat@[k],
        decreases pat@.len() - i,
    {
        if v[start + i] != pat[i] {
            assert(v@.subrange(start as int, n as int)[i as int] != pat@[i as int]);
            return false;
        }
        i += 1;
    }
    assert(v@.subrange(start as int, n as int) =~= pat@);
    true
}

/// Remove the suffix `pat` as often as the text ends with it.
pub fn trim_end_matches(v: Vec<char>, pat: &Vec<char>) -> (r: Vec<char>)
    ensures
        r@ == trim_end_all(v@, pat@),
{
    if pat.len() == 0 {
        return v;
    }
    let mut n = v.len();
    assert(v@.subrange(0, n as int) =~= v@);
    while ends_with(&v, n, pat)
        invariant
            pat@.len() > 0,
            n <= v@.len(),
            trim_end_all(v@.subrange(0, n as int), pat@) == trim_end_all(v@, pat@),
        decreases n,
    {
        let ghost cur = v@.subrange(0, n as int);
        assert(cur.subrange(cur.len() - pat@.len(), cur.len() as int) =~= v@.subrange(n - pat@.len(), n as int));
        assert(cur.subrange(0, cur.len() - pat@.len()) =~= v@.subrange(0, n - pat@.len()));
        n = n - pat.len();
    }
    let mut v = v;
    let ghost full = v@;
    v.truncate(n);
    assert(v@ =~= full.subrange(0, n as int));
    proof {
        let cur = full.subrange(0, n as int);
        assert(cur.len() < pat@.len() || cur.subrange(cur.len() - pat@.len(), cur.len() as int) != pat@) by {
            if cur.len() >= pat@.len() {
                assert(cur.subrange(cur.len() - pat@.len(), cur.len() as int) =~= full.subrange(n - pat@.len(), n as int));
            }
        }
    }
    v
}

pub open spec fn upper_char(c: char) -> char {
    if 'a' <= c <= 'z' { ((c as u8) - 32) as char } else { c }
}

pub open spec fn lower_char(c: char) -> char {
    if 'A' <= c <= 'Z' { ((c as u8) + 32) as char } else { c }
}

/// ASCII letters in upper case (`upper`) or lower case; other characters
/// unchanged.
pub open spec fn ascii_cased(c: Seq<char>, upper: bool) -> Seq<char> {
    c.map_values(|x: char| if upper { upper_char(x) } else { lower_char(x) })
}

/// Map the ASCII letters of a text to upper or lower case.
pub fn to_ascii_case(v: Vec<char>, upper: bool) -> (r: Vec<char>)
    ensures
        r@ == ascii_cased(v@, upper),
{
    let mut out: Vec<char> = Vec::new();
    let mut i: usize = 0;
    while i < v.len()
        invariant
            i <= v@.len(),
            out@ == ascii_cased(v@, upper).take(i as int),
        decreases v@.len() - i,
    {
        let c = v[i];
        let d = if upper {
            if 'a' <= c && c <= 'z' { ((c as u8) - 32) as char } else { c }
        } else {
            if 'A' <= c && c <= 'Z' { ((c as u8) + 32) as char } else { c }
        };
        out.push(d);
        i += 1;
        assert(out@ =~= ascii_cased(v@, upper).take(i as int));
    }
    assert(out@ =~= ascii_cased(v@, upper));
    out
}

/// Three texts one after the other.
pub fn concat3(a: &str, b: &str, c: &str) -> (r: String)
    ensures
        r@ == a@ + b@ + c@,
{
    let mut v = str_chars(a);
    let mut w = str_chars(b);
    let mut x = str_chars(c);
    v.append(&mut w);
    v.append(&mut x);
    string_from_chars(&v)
}

} // verus!
