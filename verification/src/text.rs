//! Small text helpers shared by the engine's message builders.
use vstd::prelude::*;
use vstd::string::*;
use vstd::std_specs::iter::IteratorSpec;

verus! {

/// What `format!("{:?}", s)` writes for a string slice `s`: the text in
/// double quotes, with Rust's escapes.
pub uninterp spec fn debug_form(s: Seq<char>) -> Seq<char>;

/// Quote a string the way `{:?}` formatting does.
///
/// Calls std's `Debug` formatting for `str`; the contract names its result.
#[verifier::external_body]
pub(crate) fn debug_quote(s: &str) -> (r: String)
    ensures
        r@ == debug_form(s@),
{
    format!("{s:?}")
}

/// The decimal digit for `d` (`0 <= d < 10`).
pub open spec fn digit_char(d: nat) -> char {
    if d == 0 {
        '0'
    } else if d == 1 {
        '1'
    } else if d == 2 {
        '2'
    } else if d == 3 {
        '3'
    } else if d == 4 {
        '4'
    } else if d == 5 {
        '5'
    } else if d == 6 {
        '6'
    } else if d == 7 {
        '7'
    } else if d == 8 {
        '8'
    } else {
        '9'
    }
}

/// The decimal representation of `n`, without leading zeros.
pub open spec fn decimal_text(n: nat) -> Seq<char>
    decreases n,
{
    if n < 10 {
        seq![digit_char(n)]
    } else {
        decimal_text(n / 10).push(digit_char(n % 10))
    }
}

/// The one-character text of digit `d`.
fn digit_str(d: u64) -> (r: &'static str)
    requires
        d < 10,
    ensures
        r@ == seq![digit_char(d as nat)],
{
    proof {
        reveal_strlit("0");
        reveal_strlit("1");
        reveal_strlit("2");
        reveal_strlit("3");
        reveal_strlit("4");
        reveal_strlit("5");
        reveal_strlit("6");
        reveal_strlit("7");
        reveal_strlit("8");
        reveal_strlit("9");
    }
    if d == 0 {
        "0"
    } else if d == 1 {
        "1"
    } else if d == 2 {
        "2"
    } else if d == 3 {
        "3"
    } else if d == 4 {
        "4"
    } else if d == 5 {
        "5"
    } else if d == 6 {
        "6"
    } else if d == 7 {
        "7"
    } else if d == 8 {
        "8"
    } else {
        "9"
    }
}

/// Write `n` in decimal.
pub fn decimal(n: u64) -> (r: String)
    ensures
        r@ == decimal_text(n as nat),
    decreases n,
{
    if n < 10 {
        String::from_str(digit_str(n))
    } else {
        let mut s = decimal(n / 10);
        s.append(digit_str(n % 10));
        s
    }
}

/// The text of integer `n`: a minus sign for negative numbers, then the
/// decimal digits of its magnitude.
pub open spec fn signed_text(n: int) -> Seq<char> {
    if n < 0 {
        seq!['-'] + decimal_text((-n) as nat)
    } else {
        decimal_text(n as nat)
    }
}

/// Write `n` in decimal.
pub fn signed_decimal(n: i64) -> (r: String)
    ensures
        r@ == signed_text(n as int),
{
    if n < 0 {
        let magnitude: u64 = if n == i64::MIN {
            9223372036854775808u64
        } else {
            (-n) as u64
        };
        let mut s = String::from_str("-");
        proof {
            reveal_strlit("-");
        }
        let digits = decimal(magnitude);
        s.append(digits.as_str());
        s
    } else {
        decimal(n as u64)
    }
}

/// The lowercase hexadecimal digit for `d` (`0 <= d < 16`).
pub open spec fn hex_char(d: nat) -> char {
    if d < 10 {
        digit_char(d)
    } else if d == 10 {
        'a'
    } else if d == 11 {
        'b'
    } else if d == 12 {
        'c'
    } else if d == 13 {
        'd'
    } else if d == 14 {
        'e'
    } else {
        'f'
    }
}

/// The last `n` hexadecimal digits of `v`, most significant first.
pub open spec fn hex_digits(v: nat, n: nat) -> Seq<char>
    decreases n,
{
    if n == 0 {
        Seq::empty()
    } else {
        hex_digits(v / 16, (n - 1) as nat).push(hex_char(v % 16))
    }
}

/// The hyphenated text of a UUID held as the 128-bit integer `id`: its 32
/// lowercase hexadecimal digits, most significant first, in groups of 8, 4,
/// 4, 4 and 12 joined by hyphens.
pub open spec fn uuid_text(id: u128) -> Seq<char> {
    let h = hex_digits(id as nat, 32);
    h.subrange(0, 8) + seq!['-'] + h.subrange(8, 12) + seq!['-'] + h.subrange(12, 16) + seq!['-']
        + h.subrange(16, 20) + seq!['-'] + h.subrange(20, 32)
}

/// Write the UUID held as the integer `id` in its hyphenated form.
///
/// Calls `uuid::Uuid::from_u128` and the UUID's `Display` text, which the
/// uuid crate writes as lowercase hexadecimal in groups 8-4-4-4-12 of the
/// big-endian bytes; the contract states that text.
#[verifier::external_body]
pub(crate) fn uuid_string(id: u128) -> (r: String)
    ensures
        r@ == uuid_text(id),
{
    uuid::Uuid::from_u128(id).to_string()
}

/// The characters of `s`.
pub fn chars_of(s: &str) -> (r: Vec<char>)
    ensures
        r@ == s@,
{
    let mut it = s.chars();
    let mut out: Vec<char> = Vec::new();
    let ghost all = s@;
    assert(it.remaining() == all);
    assert(all.subrange(0, all.len() as int) =~= all);
    loop
        invariant
            it.remaining() == all.subrange(out@.len() as int, all.len() as int),
            out@ == all.subrange(0, out@.len() as int),
            out@.len() <= all.len(),
            it.obeys_prophetic_iter_laws(),
        ensures
            out@ == all,
        decreases all.len() - out@.len(),
    {
        let ghost before = it;
        match it.next() {
            Some(c) => {
                proof {
                    assert(before.remaining().len() > 0);
                    assert(all.subrange(out@.len() as int, all.len() as int)[0] == c);
                }
                out.push(c);
                proof {
                    assert(out@ =~= all.subrange(0, out@.len() as int));
                    assert(it.remaining() =~= all.subrange(out@.len() as int, all.len() as int));
                }
            },
            None => {
                proof {
                    assert(before.remaining().len() == 0);
                    assert(out@ =~= all);
                }
                break;
            },
        }
    }
    out
}

/// `needle` occurs in `hay` at position `i`.
pub open spec fn occurs_at(hay: Seq<char>, needle: Seq<char>, i: int) -> bool {
    0 <= i && i + needle.len() <= hay.len() && hay.subrange(i, i + needle.len()) == needle
}

/// `needle` occurs somewhere in `hay`.
pub open spec fn occurs(hay: Seq<char>, needle: Seq<char>) -> bool {
    exists|i: int| occurs_at(hay, needle, i)
}

/// Whether `needle` matches `hay` at position `i`.
pub(crate) fn matches_at(hay: &Vec<char>, needle: &Vec<char>, i: usize) -> (r: bool)
    requires
        i + needle@.len() <= hay@.len(),
    ensures
        r == occurs_at(hay@, needle@, i as int),
{
    let hay_len = hay.len();
    let mut j: usize = 0;
    while j < needle.len()
        invariant
            0 <= j <= needle@.len(),
            i + needle@.len() <= hay@.len(),
            hay@.len() <= usize::MAX,
            forall|t: int| 0 <= t < j ==> hay@[i + t] == needle@[t],
        decreases needle@.len() - j,
    {
        if hay[i + j] != needle[j] {
            proof {
                let sub = hay@.subrange(i as int, i + needle@.len());
                assert(sub[j as int] != needle@[j as int]);
            }
            return false;
        }
        j = j + 1;
    }
    assert(hay@.subrange(i as int, i + needle@.len()) =~= needle@);
    true
}

/// Whether `needle` occurs in `hay`.
pub fn contains_text(hay: &str, needle: &str) -> (r: bool)
    ensures
        r == occurs(hay@, needle@),
{
    let h = chars_of(hay);
    let n = chars_of(needle);
    if n.len() > h.len() {
        proof {
            assert forall|i: int| !occurs_at(hay@, needle@, i) by {}
        }
        return false;
    }
    let last = h.len() - n.len();
    let mut i: usize = 0;
    loop
        invariant
            0 <= i <= last,
            last + n@.len() == h@.len(),
            h@ == hay@,
            n@ == needle@,
            forall|t: int| 0 <= t < i ==> !occurs_at(hay@, needle@, t),
        decreases last - i,
    {
        if matches_at(&h, &n, i) {
            return true;
        }
        if i == last {
            proof {
                assert forall|t: int| !occurs_at(hay@, needle@, t) by {
                    if 0 <= t <= i {
                    }
                }
            }
            return false;
        }
        i = i + 1;
    }
}

} // verus!
