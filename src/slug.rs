//! The public book identifier: a decimal id, a dash, and a URL-safe fragment of
//! the sort title.
use vstd::prelude::*;
use vstd::string::*;

verus! {

/// Relies on `String::push`: the character is appended at the end.
#[verifier::external_body]
pub(crate) fn push_char(s: &mut String, c: char)
    ensures
        final(s)@ == old(s)@.push(c),
{
    s.push(c)
}

/// `std::num::ParseIntError`, the opaque error of `str::parse::<usize>`.
#[verifier::external_type_specification]
#[verifier::external_body]
pub struct ExParseIntError(std::num::ParseIntError);

pub open spec fn is_digit(c: char) -> bool {
    '0' <= c && c <= '9'
}

pub open spec fn is_alnum(c: char) -> bool {
    is_digit(c) || ('a' <= c && c <= 'z') || ('A' <= c && c <= 'Z')
}

pub open spec fn lower(c: char) -> char {
    if 'A' <= c && c <= 'Z' {
        ((c as u32) + 32) as char
    } else {
        c
    }
}

/// The title fragment: spaces become dashes, ASCII letters and digits are kept
/// (letters in lower case), every other character is dropped.
pub open spec fn slugify_spec(s: Seq<char>) -> Seq<char>
    decreases s.len(),
{
    if s.len() == 0 {
        Seq::empty()
    } else {
        let rest = slugify_spec(s.drop_last());
        let c = s.last();
        if c == ' ' {
            rest.push('-')
        } else if is_alnum(c) {
            rest.push(lower(c))
        } else {
            rest
        }
    }
}

pub open spec fn digit_value(c: char) -> nat {
    ((c as u32) - ('0' as u32)) as nat
}

pub open spec fn digit_char(d: nat) -> char {
    (('0' as u32) + d) as char
}

/// The number that a run of decimal digits denotes.
pub open spec fn digits_value(s: Seq<char>) -> nat
    decreases s.len(),
{
    if s.len() == 0 {
        0
    } else {
        digits_value(s.drop_last()) * 10 + digit_value(s.last())
    }
}

pub open spec fn all_digits(s: Seq<char>) -> bool {
    forall|i: int| 0 <= i < s.len() ==> is_digit(#[trigger] s[i])
}

/// Length of the maximal run of decimal digits at the start of `s`.
pub open spec fn digit_run_len(s: Seq<char>) -> nat
    decreases s.len(),
{
    if s.len() > 0 && is_digit(s[0]) {
        1 + digit_run_len(s.drop_first())
    } else {
        0
    }
}

/// The id that a slug carries: the value of its leading digits, if it has any.
pub open spec fn decoded_id(s: Seq<char>) -> Option<nat> {
    if digit_run_len(s) == 0 {
        None
    } else {
        Some(digits_value(s.take(digit_run_len(s) as int)))
    }
}

/// The decimal form of `n`, without leading zeros.
pub open spec fn decimal(n: nat) -> Seq<char>
    decreases n,
{
    if n < 10 {
        seq![digit_char(n)]
    } else {
        decimal(n / 10).push(digit_char(n % 10))
    }
}

/// The slug of a book: its id in decimal, a dash, and the slugified sort title.
pub open spec fn slug_spec(id: nat, sort_title: Seq<char>) -> Seq<char> {
    decimal(id) + seq!['-'] + slugify_spec(sort_title)
}

/// Relies on `str::parse::<usize>`: a non-empty run of decimal digits parses to
/// its value when that fits in `usize`; an empty string or an overflow is an error.
#[verifier::external_body]
fn parse_usize(s: &str) -> (r: Result<usize, std::num::ParseIntError>)
    requires
        all_digits(s@),
    ensures
        r is Ok <==> (s@.len() > 0 && digits_value(s@) <= usize::MAX),
        r matches Ok(n) ==> n == digits_value(s@),
{
    s.parse::<usize>()
}

fn is_ascii_digit(c: char) -> (r: bool)
    ensures
        r == is_digit(c),
{
    '0' <= c && c <= '9'
}

fn is_ascii_alphanumeric(c: char) -> (r: bool)
    ensures
        r == is_alnum(c),
{
    ('0' <= c && c <= '9') || ('a' <= c && c <= 'z') || ('A' <= c && c <= 'Z')
}

fn to_ascii_lowercase(c: char) -> (r: char)
    ensures
        r == lower(c),
{
    if 'A' <= c && c <= 'Z' {
        ((c as u8) + 32) as char
    } else {
        c
    }
}

/// Turns a title into a URL-safe fragment: spaces become dashes, ASCII letters
/// are lower-cased, ASCII digits are kept and everything else is dropped.
pub fn slugify(input: &str) -> (r: String)
    ensures
        r@ == slugify_spec(input@),
{
    let n = input.unicode_len();
    let mut out = String::new();
    let mut i: usize = 0;
    while i < n
        invariant
            n == input@.len(),
            i <= n,
            out@ == slugify_spec(input@.take(i as int)),
        decreases n - i,
    {
        let c = input.get_char(i);
        assert(input@.take(i + 1).drop_last() == input@.take(i as int));
        if c == ' ' {
            push_char(&mut out, '-');
        } else if is_ascii_alphanumeric(c) {
            push_char(&mut out, to_ascii_lowercase(c));
        }
        i = i + 1;
    }
    assert(input@.take(n as int) == input@);
    out
}


/// Reads the id at the start of a slug: the maximal run of leading decimal
/// digits. Fails when there is no such run or its value does not fit in `usize`;
/// the rest of the slug is never looked at.
pub fn extract_id(input: &str) -> (r: Result<usize, std::num::ParseIntError>)
    ensures
        r is Ok <==> (decoded_id(input@) matches Some(v) && v <= usize::MAX),
        r matches Ok(n) ==> decoded_id(input@) == Some(n as nat),
        digit_run_len(input@) == 0 ==> r is Err,
{
    let n = input.unicode_len();
    let mut run = String::new();
    let mut i: usize = 0;
    proof {
        lemma_digit_run_bound(input@);
    }
    while i < n && is_ascii_digit(input.get_char(i))
        invariant
            n == input@.len(),
            i <= n,
            i <= digit_run_len(input@),
            run@ == input@.take(i as int),
            all_digits(run@),
        decreases n - i,
    {
        let c = input.get_char(i);
        proof {
            assert forall|j: int| 0 <= j <= i implies is_digit(#[trigger] input@[j]) by {
                if j < i {
                    assert(input@[j] == run@[j]);
                }
            }
            lemma_digit_run_prefix(input@, i as nat);
        }
        push_char(&mut run, c);
        assert(run@ == input@.take(i + 1));
        i = i + 1;
    }
    proof {
        assert forall|j: int| 0 <= j < i implies is_digit(#[trigger] input@[j]) by {
            assert(input@[j] == run@[j]);
        }
        if i < n {
            lemma_digit_run_stops(input@, i as nat);
        }
        lemma_digit_run_bound(input@);
    }
    parse_usize(run.as_str())
}

proof fn lemma_digit_run_bound(s: Seq<char>)
    ensures
        digit_run_len(s) <= s.len(),
        forall|j: int| 0 <= j < digit_run_len(s) ==> is_digit(#[trigger] s[j]),
    decreases s.len(),
{
    if s.len() > 0 && is_digit(s[0]) {
        lemma_digit_run_bound(s.drop_first());
        assert forall|j: int| 0 <= j < digit_run_len(s) implies is_digit(#[trigger] s[j]) by {
            if j > 0 {
                assert(s[j] == s.drop_first()[j - 1]);
            }
        }
    }
}

/// Inside the leading run, each further digit extends it.
proof fn lemma_digit_run_prefix(s: Seq<char>, i: nat)
    requires
        i < s.len(),
        i <= digit_run_len(s),
        forall|j: int| 0 <= j <= i ==> is_digit(#[trigger] s[j]),
    ensures
        i + 1 <= digit_run_len(s),
    decreases i,
{
    if i > 0 {
        let t = s.drop_first();
        assert forall|j: int| 0 <= j <= i - 1 implies is_digit(#[trigger] t[j]) by {
            assert(t[j] == s[j + 1]);
        }
        lemma_digit_run_prefix(t, (i - 1) as nat);
    } else {
        assert(is_digit(s[0]));
    }
}

/// A non-digit after `i` leading digits ends the run there.
proof fn lemma_digit_run_stops(s: Seq<char>, i: nat)
    requires
        i < s.len(),
        !is_digit(s[i as int]),
        forall|j: int| 0 <= j < i ==> is_digit(#[trigger] s[j]),
    ensures
        digit_run_len(s) == i,
    decreases i,
{
    if i > 0 {
        let t = s.drop_first();
        assert(t[(i - 1) as int] == s[i as int]);
        assert forall|j: int| 0 <= j < i - 1 implies is_digit(#[trigger] t[j]) by {
            assert(t[j] == s[j + 1]);
        }
        lemma_digit_run_stops(t, (i - 1) as nat);
        assert(is_digit(s[0]));
    }
}


pub(crate) fn push_decimal(out: &mut String, n: u64)
    ensures
        final(out)@ == old(out)@ + decimal(n as nat),
    decreases n,
{
    if n >= 10 {
        push_decimal(out, n / 10);
    }
    let d: u8 = (n % 10) as u8;
    push_char(out, (d + 48) as char);
    assert(final(out)@ == old(out)@ + decimal(n as nat));
}

/// Encodes a book's public identifier: its id in decimal, a dash, and the
/// slugified sort title.
pub fn slug_for(id: u64, sort_title: &str) -> (r: String)
    ensures
        r@ == slug_spec(id as nat, sort_title@),
{
    let mut out = String::new();
    push_decimal(&mut out, id);
    push_char(&mut out, '-');
    let tail = slugify(sort_title);
    out.append(tail.as_str());
    assert(out@ == slug_spec(id as nat, sort_title@));
    out
}

proof fn lemma_decimal(n: nat)
    ensures
        decimal(n).len() >= 1,
        all_digits(decimal(n)),
        digits_value(decimal(n)) == n,
    decreases n,
{
    if n >= 10 {
        lemma_decimal(n / 10);
        let d = decimal(n / 10);
        assert(decimal(n).drop_last() == d);
        assert(digit_value(digit_char(n % 10)) == n % 10);
        assert((n / 10) * 10 + n % 10 == n) by (nonlinear_arith);
        assert(decimal(n).last() == digit_char(n % 10));
        assert(digits_value(decimal(n)) == digits_value(d) * 10 + digit_value(digit_char(n % 10)));
        assert forall|i: int| 0 <= i < decimal(n).len() implies is_digit(#[trigger] decimal(n)[i]) by {
            if i < d.len() {
                assert(decimal(n)[i] == d[i]);
            }
        }
    } else {
        assert(seq![digit_char(n)].drop_last() =~= Seq::<char>::empty());
        assert(digit_value(digit_char(n)) == n);
        assert(seq![digit_char(n)].last() == digit_char(n));
        assert(digits_value(seq![digit_char(n)]) == digits_value(Seq::<char>::empty()) * 10 + digit_value(digit_char(n)));
    }
}

/// Decoding the slug of any id, whatever the title, gives that id back: the
/// dash that follows the digits ends the run, so the title is never read.
pub proof fn lemma_slug_round_trip(id: nat, sort_title: Seq<char>)
    ensures
        decoded_id(slug_spec(id, sort_title)) == Some(id),
{
    let d = decimal(id);
    let s = slug_spec(id, sort_title);
    lemma_decimal(id);
    assert forall|j: int| 0 <= j < d.len() implies is_digit(#[trigger] s[j]) by {
        assert(s[j] == d[j]);
    }
    assert(s[d.len() as int] == '-');
    lemma_digit_run_stops(s, d.len());
    assert(s.take(d.len() as int) == d);
}

/// A slug that does not start with a digit never decodes.
pub proof fn lemma_no_leading_digit(s: Seq<char>)
    requires
        s.len() == 0 || !is_digit(s[0]),
    ensures
        decoded_id(s) is None,
{
}

} // verus!
