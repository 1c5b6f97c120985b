//! Character classes and string building used throughout the crate.
use vstd::prelude::*;

verus! {

/// `String::push` appends one character.
pub assume_specification[ std::string::String::push ](s: &mut std::string::String, ch: char)
    ensures
        final(s)@ == old(s)@.push(ch),
;

/// The ASCII characters that Unicode gives the `White_Space` property:
/// tab, line feed, vertical tab, form feed, carriage return and space.
pub open spec fn ascii_white_space(c: char) -> bool {
    c == ' ' || ('\t' <= c && c <= '\r')
}

/// ASCII letters.
pub open spec fn ascii_letter(c: char) -> bool {
    ('a' <= c && c <= 'z') || ('A' <= c && c <= 'Z')
}

/// ASCII decimal digits.
pub open spec fn ascii_digit(c: char) -> bool {
    '0' <= c && c <= '9'
}

/// Whether `char::is_whitespace` holds of a character outside ASCII.
pub uninterp spec fn unicode_white_space(c: char) -> bool;

/// Whether `char::is_alphabetic` holds of a character outside ASCII.
pub uninterp spec fn unicode_alphabetic(c: char) -> bool;

/// Whether `char::is_numeric` holds of a character outside ASCII.
pub uninterp spec fn unicode_numeric(c: char) -> bool;

/// `char::is_whitespace`, by the ASCII rule where it applies.
pub open spec fn is_white_space(c: char) -> bool {
    if (c as u32) < 128 {
        ascii_white_space(c)
    } else {
        unicode_white_space(c)
    }
}

/// `char::is_alphabetic`, by the ASCII rule where it applies.
pub open spec fn is_alphabetic(c: char) -> bool {
    if (c as u32) < 128 {
        ascii_letter(c)
    } else {
        unicode_alphabetic(c)
    }
}

/// `char::is_alphanumeric`, by the ASCII rule where it applies.
pub open spec fn is_alphanumeric(c: char) -> bool {
    if (c as u32) < 128 {
        ascii_letter(c) || ascii_digit(c)
    } else {
        unicode_alphabetic(c) || unicode_numeric(c)
    }
}

/// Calls `char::is_whitespace`.  Its documentation defines it as the Unicode
/// `White_Space` property; within ASCII that property holds of exactly the
/// characters tab through carriage return and the space.  Outside ASCII the
/// result is only named.
#[verifier::external_body]
pub(crate) fn char_is_whitespace(c: char) -> (r: bool)
    ensures
        r == (if (c as u32) < 128 {
            ascii_white_space(c)
        } else {
            unicode_white_space(c)
        }),
{
    c.is_whitespace()
}

/// Calls `char::is_alphabetic` (the Unicode `Alphabetic` property, which
/// within ASCII holds of the letters only).  Outside ASCII the result is only
/// named.
#[verifier::external_body]
pub(crate) fn char_is_alphabetic(c: char) -> (r: bool)
    ensures
        r == (if (c as u32) < 128 {
            ascii_letter(c)
        } else {
            unicode_alphabetic(c)
        }),
{
    c.is_alphabetic()
}

/// Calls `char::is_alphanumeric`, which its documentation defines as
/// `is_alphabetic` or `is_numeric`; within ASCII that holds of the letters
/// and the digits only.  Outside ASCII the numeric part is only named.
#[verifier::external_body]
pub(crate) fn char_is_alphanumeric(c: char) -> (r: bool)
    ensures
        r == (if (c as u32) < 128 {
            ascii_letter(c) || ascii_digit(c)
        } else {
            unicode_alphabetic(c) || unicode_numeric(c)
        }),
{
    c.is_alphanumeric()
}

/// Characters that `Debug` for `str` writes as they are: printable ASCII;
/// of these only the double quote and the backslash are escaped (below).
pub open spec fn debug_plain(c: char) -> bool {
    ' ' <= c && c <= '~'
}

/// The escaping of `Debug` for `str` on strings of plain characters: a
/// backslash before each double quote and backslash.
pub open spec fn escape_plain(s: Seq<char>) -> Seq<char>
    decreases s.len(),
{
    if s.len() == 0 {
        Seq::empty()
    } else {
        let rest = escape_plain(s.drop_last());
        let c = s.last();
        if c == '"' || c == '\\' {
            rest.push('\\').push(c)
        } else {
            rest.push(c)
        }
    }
}

/// What `format!("{:?}", s)` writes for a string `s`.
pub uninterp spec fn debug_text(s: Seq<char>) -> Seq<char>;

/// `{:?}` of a string, with the quotes.
pub open spec fn debug_quoted(s: Seq<char>) -> Seq<char> {
    if forall|i: int| 0 <= i < s.len() ==> debug_plain(#[trigger] s[i]) {
        seq!['"'] + escape_plain(s) + seq!['"']
    } else {
        debug_text(s)
    }
}

/// Calls `format!("{:?}", s)`.  For strings made only of printable ASCII
/// characters (the single quote among them), `Debug` writes the string between
/// double quotes with a backslash before each double quote and backslash;
/// for any other string the result is only named, and it is still written
/// between two double quotes, so it has at least two characters.
#[verifier::external_body]
pub(crate) fn debug_string(s: &str) -> (r: String)
    ensures
        r@ == (if forall|i: int| 0 <= i < s@.len() ==> debug_plain(#[trigger] s@[i]) {
            seq!['"'] + escape_plain(s@) + seq!['"']
        } else {
            debug_text(s@)
        }),
        r@.len() >= 2,
{
    format!("{s:?}")
}

/// Collects the characters of a string slice, in order.
pub fn chars_of(s: &str) -> (v: Vec<char>)
    ensures
        v@ == s@,
{
    let mut v: Vec<char> = Vec::new();
    for c in it: s.chars()
        invariant
            v@ == it.seq().take(it.index() as int),
            it.seq() == s@,
    {
        v.push(c);
    }
    v
}

/// Whether two string slices hold the same characters.
pub fn text_eq(a: &str, b: &str) -> (r: bool)
    ensures
        r == (a@ == b@),
{
    let x = chars_of(a);
    let y = chars_of(b);
    if x.len() != y.len() {
        return false;
    }
    let mut i: usize = 0;
    while i < x.len()
        invariant
            x@ == a@,
            y@ == b@,
            x@.len() == y@.len(),
            0 <= i <= x@.len(),
            forall|t: int| 0 <= t < i ==> x@[t] == y@[t],
        decreases x@.len() - i,
    {
        if x[i] != y[i] {
            return false;
        }
        i = i + 1;
    }
    assert(x@ =~= y@);
    true
}

/// An owned copy of a string slice.
pub fn string_of(s: &str) -> (r: String)
    ensures
        r@ == s@,
{
    s.to_owned()
}

/// Appends a string slice.
pub fn push_text(dst: &mut String, s: &str)
    ensures
        final(dst)@ == old(dst)@ + s@,
{
    let cs = chars_of(s);
    let mut i: usize = 0;
    while i < cs.len()
        invariant
            0 <= i <= cs@.len(),
            cs@ == s@,
            dst@ == old(dst)@ + s@.take(i as int),
        decreases cs@.len() - i,
    {
        dst.push(cs[i]);
        i = i + 1;
        assert(s@.take(i as int) =~= s@.take(i - 1 as int).push(s@[i - 1]));
    }
    assert(s@.take(i as int) =~= s@);
}

/// The characters `v[from..to]` as a string.
pub fn string_from_chars(v: &Vec<char>, from: usize, to: usize) -> (r: String)
    requires
        from <= to <= v@.len(),
    ensures
        r@ == v@.subrange(from as int, to as int),
{
    let mut r = String::new();
    let mut i: usize = from;
    while i < to
        invariant
            from <= i <= to <= v@.len(),
            r@ == v@.subrange(from as int, i as int),
        decreases to - i,
    {
        r.push(v[i]);
        i = i + 1;
        assert(v@.subrange(from as int, i as int) =~= v@.subrange(from as int, i - 1 as int).push(
            v@[i - 1],
        ));
    }
    r
}

/// The decimal digit for `d < 10`.
pub open spec fn digit_char(d: nat) -> char {
    if d == 0 {
        '0'
    } else if d == 1 {
        '1'
    } else if d == 2 {
        '2'
    } else if d == 3 {
        '3'
    } else if d == 4 {
        '4'
    } else if d == 5 {
        '5'
    } else if d == 6 {
        '6'
    } else if d == 7 {
        '7'
    } else if d == 8 {
        '8'
    } else {
        '9'
    }
}

/// The decimal text of a natural number, without leading zeros.
pub open spec fn decimal(n: nat) -> Seq<char>
    decreases n,
{
    if n < 10 {
        seq![digit_char(n)]
    } else {
        decimal(n / 10).push(digit_char(n % 10))
    }
}

fn digit_of(d: usize) -> (c: char)
    requires
        d < 10,
    ensures
        c == digit_char(d as nat),
{
    if d == 0 {
        '0'
    } else if d == 1 {
        '1'
    } else if d == 2 {
        '2'
    } else if d == 3 {
        '3'
    } else if d == 4 {
        '4'
    } else if d == 5 {
        '5'
    } else if d == 6 {
        '6'
    } else if d == 7 {
        '7'
    } else if d == 8 {
        '8'
    } else {
        '9'
    }
}

/// Appends the decimal text of `n`, as `{}` formats a `usize`.
pub fn push_decimal(dst: &mut String, n: usize)
    ensures
        final(dst)@ == old(dst)@ + decimal(n as nat),
    decreases n,
{
    if n < 10 {
        dst.push(digit_of(n));
        assert(decimal(n as nat) =~= seq![digit_char(n as nat)]);
    } else {
        push_decimal(dst, n / 10);
        dst.push(digit_of(n % 10));
    }
}


/// `s` with every non-overlapping occurrence of `from`, leftmost first,
/// replaced by `to`.
pub open spec fn replace_all(s: Seq<char>, from: Seq<char>, to: Seq<char>) -> Seq<char>
    decreases s.len(),
{
    if from.len() == 0 || s.len() < from.len() {
        s
    } else if s.take(from.len() as int) == from {
        to + replace_all(s.skip(from.len() as int), from, to)
    } else {
        seq![s[0]] + replace_all(s.skip(1), from, to)
    }
}

/// Whether `fs` occurs in `cs` at index `i`.
fn occurs_at(cs: &Vec<char>, i: usize, fs: &Vec<char>) -> (r: bool)
    requires
        i <= cs@.len(),
        fs@.len() <= cs@.len() - i,
    ensures
        r == (cs@.skip(i as int).take(fs@.len() as int) == fs@),
{
    let n = cs.len();
    let mut k: usize = 0;
    while k < fs.len()
        invariant
            0 <= k <= fs@.len(),
            n == cs@.len(),
            i <= cs@.len(),
            fs@.len() <= cs@.len() - i,
            forall|m: int| 0 <= m < k ==> cs@[i + m] == fs@[m],
        decreases fs@.len() - k,
    {
        if cs[i + k] != fs[k] {
            assert(cs@.skip(i as int).take(fs@.len() as int)[k as int] != fs@[k as int]);
            return false;
        }
        k = k + 1;
    }
    assert(cs@.skip(i as int).take(fs@.len() as int) =~= fs@);
    true
}

/// `s` with every non-overlapping occurrence of the non-empty `from`,
/// leftmost first, replaced by `to`, as `str::replace` does it.
pub(crate) fn str_replace(s: &str, from: &str, to: &str) -> (r: String)
    requires
        from@.len() > 0,
    ensures
        r@ == replace_all(s@, from@, to@),
{
    let cs = chars_of(s);
    let fs = chars_of(from);
    let mut out = String::new();
    let mut i: usize = 0;
    assert(cs@.skip(0) =~= cs@);
    while i < cs.len()
        invariant
            0 <= i <= cs@.len(),
            cs@ == s@,
            fs@ == from@,
            fs@.len() > 0,
            replace_all(s@, from@, to@) == out@ + replace_all(cs@.skip(i as int), from@, to@),
        decreases cs@.len() - i,
    {
        let ghost rest = cs@.skip(i as int);
        let ghost before = out@;
        if fs.len() <= cs.len() - i && occurs_at(&cs, i, &fs) {
            push_text(&mut out, to);
            assert(rest.skip(fs@.len() as int) =~= cs@.skip(i + fs@.len()));
            i = i + fs.len();
            assert(out@ + replace_all(cs@.skip(i as int), from@, to@) =~= before + replace_all(rest, from@, to@));
        } else {
            out.push(cs[i]);
            assert(rest.skip(1) =~= cs@.skip(i + 1));
            proof {
                if rest.len() < fs@.len() {
                    assert(replace_all(rest, from@, to@) == rest);
                    assert(replace_all(rest.skip(1), from@, to@) == rest.skip(1));
                    assert(rest =~= seq![rest[0]] + rest.skip(1));
                }
            }
            i = i + 1;
            assert(out@ + replace_all(cs@.skip(i as int), from@, to@) =~= before + replace_all(rest, from@, to@));
        }
    }
    assert(cs@.skip(i as int) =~= Seq::<char>::empty());
    assert(out@ + Seq::<char>::empty() =~= out@);
    out
}

} // verus!
