//! Text helpers: conversions between strings and character vectors, and the
//! few Unicode properties of characters that the library relies on.
use vstd::prelude::*;

verus! {

/// What `str::to_lowercase` returns for a string (full Unicode lowercase
/// mapping, which may change the length).
pub uninterp spec fn lowercase_of(s: Seq<char>) -> Seq<char>;

/// Whether a character has the Unicode `White_Space` property: tab, line
/// feed, vertical tab, form feed, carriage return, space, next line,
/// no-break space, ogham space mark, the spaces U+2000 to U+200A, line
/// separator, paragraph separator, narrow no-break space, medium
/// mathematical space and ideographic space.
pub open spec fn unicode_whitespace(c: char) -> bool {
    let u = c as u32;
    ||| (0x09 <= u && u <= 0x0d)
    ||| u == 0x20
    ||| u == 0x85
    ||| u == 0xa0
    ||| u == 0x1680
    ||| (0x2000 <= u && u <= 0x200a)
    ||| u == 0x2028
    ||| u == 0x2029
    ||| u == 0x202f
    ||| u == 0x205f
    ||| u == 0x3000
}

/// The characters of `s`, in order (`str::chars`, collected).
pub(crate) fn chars_of(s: &str) -> (v: Vec<char>)
    ensures
        v@ == s@,
{
    broadcast use vstd::string::axiom_spec_iter;

    let mut v: Vec<char> = Vec::new();
    for c in it: s.chars()
        invariant
            it.seq() == s@,
            v@ == it.seq().take(it.index() as int),
    {
        v.push(c);
        proof {
            assert(it.seq().take(it.index() + 1) =~= it.seq().take(it.index() as int).push(c));
        }
    }
    proof {
        assert(v@ =~= s@);
    }
    v
}

/// The string made of the characters `v` (`String: FromIterator<char>`).
#[verifier::external_body]
pub(crate) fn string_of(v: &[char]) -> (s: String)
    ensures
        s@ == v@,
{
    v.iter().collect()
}

/// `str::to_lowercase`: the lowercase form of `s` by the Unicode mapping.
/// The result is named, not described.
#[verifier::external_body]
pub(crate) fn to_lowercase(s: &str) -> (r: String)
    ensures
        r@ == lowercase_of(s@),
{
    s.to_lowercase()
}

/// Whether `c` has the `White_Space` property (what `char::is_whitespace`
/// tells). Of ASCII characters exactly tab, line feed, vertical tab, form
/// feed, carriage return and space have it.
pub(crate) fn is_whitespace(c: char) -> (b: bool)
    ensures
        b == unicode_whitespace(c),
        (c as u32) < 128 ==> (b <==> (c == ' ' || ('\t' as u32 <= c as u32 && c as u32 <= '\r' as u32))),
{
    let u = c as u32;
    (0x09 <= u && u <= 0x0d) || u == 0x20 || u == 0x85 || u == 0xa0 || u == 0x1680 || (0x2000 <= u && u
        <= 0x200a) || u == 0x2028 || u == 0x2029 || u == 0x202f || u == 0x205f || u == 0x3000
}

/// The state of whitespace collapsing after reading `s`: the text produced so
/// far, and whether whitespace was seen after it (which turns into a single
/// space before the next word).
pub open spec fn collapse_state(s: Seq<char>) -> (Seq<char>, bool)
    decreases s.len(),
{
    if s.len() == 0 {
        (Seq::empty(), false)
    } else {
        let (out, gap) = collapse_state(s.drop_last());
        let c = s.last();
        if unicode_whitespace(c) {
            (out, out.len() > 0)
        } else if gap {
            (out + seq![' ', c], false)
        } else {
            (out.push(c), false)
        }
    }
}

/// The words of `s` (maximal runs of non-whitespace) joined by one space:
/// what `s.split_whitespace().collect::<Vec<_>>().join(" ")` gives.
pub open spec fn collapse_whitespace(s: Seq<char>) -> Seq<char> {
    collapse_state(s).0
}

/// Collapses every run of whitespace to one space and drops leading and
/// trailing whitespace.
pub fn collapse_whitespace_chars(s: &Vec<char>) -> (r: Vec<char>)
    ensures
        r@ == collapse_whitespace(s@),
{
    let mut out: Vec<char> = Vec::new();
    let mut gap = false;
    let mut i: usize = 0;
    while i < s.len()
        invariant
            i <= s.len(),
            (out@, gap) == collapse_state(s@.take(i as int)),
        decreases s.len() - i,
    {
        let c = s[i];
        proof {
            assert(s@.take(i + 1).drop_last() =~= s@.take(i as int));
            assert(s@.take(i + 1).last() == c);
        }
        if is_whitespace(c) {
            gap = out.len() > 0;
        } else {
            if gap {
                out.push(' ');
                let ghost mid = out@;
                out.push(c);
                proof {
                    assert(out@ =~= mid.push(c));
                }
            } else {
                out.push(c);
            }
            gap = false;
        }
        proof {
            let (o, g) = collapse_state(s@.take(i as int));
            if !unicode_whitespace(c) && g {
                assert(out@ =~= o + seq![' ', c]);
            }
        }
        i = i + 1;
    }
    proof {
        assert(s@.take(i as int) =~= s@);
    }
    out
}

/// Appends the characters of `s` to `out`.
pub fn append_str(out: &mut Vec<char>, s: &str)
    ensures
        final(out)@ == old(out)@ + s@,
{
    let cs = chars_of(s);
    let mut i: usize = 0;
    while i < cs.len()
        invariant
            i <= cs@.len(),
            cs@ == s@,
            out@ == old(out)@ + cs@.take(i as int),
        decreases cs@.len() - i,
    {
        out.push(cs[i]);
        i = i + 1;
        proof {
            assert(cs@.take(i as int) =~= cs@.take(i - 1).push(cs@[i - 1]));
        }
    }
    proof {
        assert(cs@.take(i as int) =~= cs@);
    }
}

/// The decimal digit character for `d < 10`.
pub open spec fn digit_char(d: nat) -> char {
    ((48 + d) as u8) as char
}

/// The decimal representation of `n`, without leading zeros.
pub open spec fn decimal(n: nat) -> Seq<char>
    decreases n,
{
    if n < 10 {
        seq![digit_char(n)]
    } else {
        decimal(n / 10).push(digit_char(n % 10))
    }
}

/// Appends the decimal representation of `n` to `out`.
pub fn append_decimal(out: &mut Vec<char>, n: u128)
    ensures
        final(out)@ == old(out)@ + decimal(n as nat),
    decreases n,
{
    if n >= 10 {
        append_decimal(out, n / 10);
    }
    let d: u8 = (n % 10) as u8;
    out.push((48u8 + d) as char);
    proof {
        if n >= 10 {
            assert(decimal(n as nat) == decimal((n / 10) as nat).push(digit_char((n % 10) as nat)));
        }
    }
}

} // verus!
