//! Coercion of option text into typed values.
//!
//! Two capability contracts drive every typed lookup: parsing one
//! string into a value ([`FromSudoOption`]) and parsing a delimited
//! string into a sequence of values ([`FromSudoOptionList`], through
//! the blanket implementation of [`FromSudoOption`] for `Vec`).

use vstd::prelude::*;
use vstd::string::StrSliceExecFns;

verus! {

// ---------------------------------------------------------------------------
// The two capability contracts.
// ---------------------------------------------------------------------------

/// Single-value coercion: how one option string parses into `Self`.
pub trait FromSudoOption: Sized {
    /// The type-specific parse error.
    type Err;

    /// Whether the text parses as a `Self`.
    spec fn parses(s: Seq<char>) -> bool;

    /// Whether `v` is the value the text parses to.
    spec fn parsed(s: Seq<char>, v: Self) -> bool;

    /// Parses one option string into a `Self`.
    fn from_sudo_option(s: &str) -> (r: Result<Self, Self::Err>)
        ensures
            r is Ok <==> Self::parses(s@),
            r matches Ok(v) ==> Self::parsed(s@, v),
    ;
}

/// List coercion: a type that can also be parsed out of a delimited
/// option string, one segment per value, with a separator of its own
/// choosing.
pub trait FromSudoOptionList: FromSudoOption {
    /// The character that separates two segments.
    spec fn spec_separator() -> char;

    /// The character that separates two segments.
    fn separator() -> (c: char)
        ensures
            c == Self::spec_separator(),
    ;
}

// ---------------------------------------------------------------------------
// Splitting a string on a separator.
// ---------------------------------------------------------------------------

/// The segments of `s` between occurrences of `sep`: always one more
/// segment than there are separators, so an empty string has one empty
/// segment and a trailing separator yields a trailing empty segment.
pub open spec fn split_on(s: Seq<char>, sep: char) -> Seq<Seq<char>>
    decreases s.len(),
    via split_on_decreases
{
    match s.index_of_first(sep) {
        Some(i) => seq![s.take(i)] + split_on(s.skip(i + 1), sep),
        None => seq![s],
    }
}

#[via_fn]
proof fn split_on_decreases(s: Seq<char>, sep: char) {
    s.index_of_first_ensures(sep);
}

/// Position of the first occurrence of `c` in `s`, if any.
pub(crate) fn find_char(s: &str, c: char) -> (r: Option<usize>)
    ensures
        match r {
            Some(i) => s@.index_of_first(c) == Some(i as int) && i < s@.len(),
            None => s@.index_of_first(c) is None,
        },
{
    let n = s.unicode_len();
    let mut i: usize = 0;
    while i < n
        invariant
            n == s@.len(),
            i <= n,
            forall|j: int| 0 <= j < i ==> s@[j] != c,
        decreases n - i,
    {
        if s.get_char(i) == c {
            proof {
                s@.index_of_first_ensures(c);
                assert(s@.contains(c)) by {
                    assert(s@[i as int] == c);
                }
                let idx = s@.index_of_first(c)->Some_0;
                assert(idx == i) by {
                    if idx < i {
                        assert(s@[idx] != c);
                    }
                    if idx > i {
                        assert(s@[i as int] != c);
                    }
                }
            }
            return Some(i);
        }
        i += 1;
    }
    proof {
        s@.index_of_first_ensures(c);
        if s@.contains(c) {
            let w = choose|w: int| 0 <= w < s@.len() && s@[w] == c;
            assert(s@[w] != c);
        }
    }
    None
}

/// Splits `s` into its segments between occurrences of `sep`.
pub fn split_str<'a>(s: &'a str, sep: char) -> (r: Vec<&'a str>)
    ensures
        r.deep_view() == split_on(s@, sep),
{
    let mut out: Vec<&'a str> = Vec::new();
    let mut rest: &'a str = s;
    let mut done: bool = false;
    proof {
        assert(out.deep_view() + split_on(s@, sep) =~= split_on(s@, sep));
    }
    while !done
        invariant
            !done ==> split_on(s@, sep) == out.deep_view() + split_on(rest@, sep),
            done ==> out.deep_view() == split_on(s@, sep),
        decreases rest@.len(), (if done { 0int } else { 1int }),
    {
        let ghost old_dv = out.deep_view();
        match find_char(rest, sep) {
            Some(i) => {
                let n = rest.unicode_len();
                let seg = rest.substring_char(0, i);
                let new_rest = rest.substring_char(i + 1, n);
                out.push(seg);
                proof {
                    assert(seg@ =~= rest@.take(i as int));
                    assert(new_rest@ =~= rest@.skip(i + 1));
                    assert(split_on(rest@, sep) == seq![seg@] + split_on(new_rest@, sep));
                    assert(out.deep_view() =~= old_dv.push(seg@));
                    assert(old_dv + (seq![seg@] + split_on(new_rest@, sep)) =~= old_dv.push(seg@)
                        + split_on(new_rest@, sep));
                }
                rest = new_rest;
            }
            None => {
                out.push(rest);
                done = true;
                proof {
                    assert(split_on(rest@, sep) == seq![rest@]);
                    assert(out.deep_view() =~= old_dv.push(rest@));
                    assert(old_dv + seq![rest@] =~= old_dv.push(rest@));
                }
            }
        }
    }
    out
}

// ---------------------------------------------------------------------------
// Decimal digits and the unsigned-integer coercion.
// ---------------------------------------------------------------------------

/// Whether `c` is a decimal digit.
pub open spec fn is_dec_digit(c: char) -> bool {
    ('0' as u32) <= (c as u32) && (c as u32) <= ('9' as u32)
}

/// The numeric value of a decimal digit.
pub open spec fn digit_val(c: char) -> nat
    recommends
        is_dec_digit(c),
{
    ((c as u32) - ('0' as u32)) as nat
}

/// Whether every character of `s` is a decimal digit.
pub open spec fn all_dec_digits(s: Seq<char>) -> bool {
    forall|i: int| 0 <= i < s.len() ==> is_dec_digit(#[trigger] s[i])
}

/// The number written by a sequence of decimal digits, most
/// significant first.
pub open spec fn digits_val(s: Seq<char>) -> nat
    recommends
        all_dec_digits(s),
    decreases s.len(),
{
    if s.len() == 0 {
        0
    } else {
        digits_val(s.drop_last()) * 10 + digit_val(s.last())
    }
}

/// The unsigned integer a string denotes: one or more decimal digits
/// whose value fits, and nothing else.
pub open spec fn parse_u64(s: Seq<char>) -> Option<u64> {
    if s.len() > 0 && all_dec_digits(s) && digits_val(s) <= u64::MAX {
        Some(digits_val(s) as u64)
    } else {
        None
    }
}

/// A prefix of a digit string never exceeds the whole string's value.
proof fn lemma_digits_val_prefix(s: Seq<char>, j: int)
    requires
        0 <= j <= s.len(),
    ensures
        digits_val(s.take(j)) <= digits_val(s),
    decreases s.len(),
{
    if j == s.len() {
        assert(s.take(j) =~= s);
    } else {
        lemma_digits_val_prefix(s.drop_last(), j);
        assert(s.drop_last().take(j) =~= s.take(j));
    }
}

/// Parses a whole string as an unsigned decimal integer.
pub fn parse_u64_str(s: &str) -> (r: Option<u64>)
    ensures
        r == parse_u64(s@),
{
    let n = s.unicode_len();
    if n == 0 {
        return None;
    }
    let mut acc: u64 = 0;
    let mut i: usize = 0;
    while i < n
        invariant
            n == s@.len(),
            0 < n,
            i <= n,
            all_dec_digits(s@.take(i as int)),
            acc == digits_val(s@.take(i as int)),
        decreases n - i,
    {
        let c = s.get_char(i);
        let u = c as u32;
        if u < 48 || u > 57 {
            proof {
                assert(!is_dec_digit(s@[i as int]));
            }
            return None;
        }
        let d: u64 = (u - 48) as u64;
        proof {
            assert(s@.take(i + 1).drop_last() =~= s@.take(i as int));
            assert(s@.take(i + 1).last() == s@[i as int]);
            assert(digits_val(s@.take(i + 1)) == acc * 10 + d);
            vstd::arithmetic::div_mod::lemma_fundamental_div_mod((u64::MAX - d) as int, 10);
        }
        let limit: u64 = (u64::MAX - d) / 10;
        if acc > limit {
            proof {
                assert(acc * 10 + d > u64::MAX);
                lemma_digits_val_prefix(s@, i + 1);
                assert(digits_val(s@) > u64::MAX);
            }
            return None;
        }
        acc = acc * 10 + d;
        i += 1;
    }
    proof {
        assert(s@.take(n as int) =~= s@);
    }
    Some(acc)
}

impl FromSudoOption for u64 {
    type Err = ();

    open spec fn parses(s: Seq<char>) -> bool {
        parse_u64(s) is Some
    }

    open spec fn parsed(s: Seq<char>, v: u64) -> bool {
        parse_u64(s) == Some(v)
    }

    fn from_sudo_option(s: &str) -> (r: Result<Self, ()>) {
        match parse_u64_str(s) {
            Some(v) => Ok(v),
            None => Err(()),
        }
    }
}

// ---------------------------------------------------------------------------
// The boolean coercion.
// ---------------------------------------------------------------------------

/// The boolean a string denotes: exactly the canonical spellings
/// `true` and `false`.
pub open spec fn parse_bool(s: Seq<char>) -> Option<bool> {
    if s == "true"@ {
        Some(true)
    } else if s == "false"@ {
        Some(false)
    } else {
        None
    }
}

/// Law: only the canonical spelling `true` parses to `true`.
pub proof fn lemma_bool_true_canonical(s: Seq<char>)
    ensures
        parse_bool(s) == Some(true) <==> s == "true"@,
{
}

/// Whether two strings hold the same characters.
fn str_eq(a: &str, b: &str) -> (r: bool)
    ensures
        r == (a@ == b@),
{
    let na = a.unicode_len();
    let nb = b.unicode_len();
    if na != nb {
        proof {
            if a@ == b@ {
                assert(a@.len() == b@.len());
            }
        }
        return false;
    }
    let mut i: usize = 0;
    while i < na
        invariant
            na == a@.len(),
            a@.len() == b@.len(),
            i <= na,
            forall|j: int| 0 <= j < i ==> a@[j] == b@[j],
        decreases na - i,
    {
        if a.get_char(i) != b.get_char(i) {
            proof {
                if a@ == b@ {
                    assert(a@[i as int] == b@[i as int]);
                }
            }
            return false;
        }
        i += 1;
    }
    proof {
        assert(a@ =~= b@);
    }
    true
}

/// Parses a whole string as a boolean.
pub fn parse_bool_str(s: &str) -> (r: Option<bool>)
    ensures
        r == parse_bool(s@),
{
    if str_eq(s, "true") {
        Some(true)
    } else if str_eq(s, "false") {
        Some(false)
    } else {
        None
    }
}

impl FromSudoOption for bool {
    type Err = ();

    open spec fn parses(s: Seq<char>) -> bool {
        parse_bool(s) is Some
    }

    open spec fn parsed(s: Seq<char>, v: bool) -> bool {
        parse_bool(s) == Some(v)
    }

    fn from_sudo_option(s: &str) -> (r: Result<Self, ()>) {
        match parse_bool_str(s) {
            Some(v) => Ok(v),
            None => Err(()),
        }
    }
}

// ---------------------------------------------------------------------------
// The text coercion.
// ---------------------------------------------------------------------------

impl FromSudoOption for String {
    type Err = ();

    open spec fn parses(s: Seq<char>) -> bool {
        true
    }

    open spec fn parsed(s: Seq<char>, v: String) -> bool {
        v@ == s
    }

    fn from_sudo_option(s: &str) -> (r: Result<Self, ()>) {
        Ok(s.to_owned())
    }
}

// ---------------------------------------------------------------------------
// The list coercion.
// ---------------------------------------------------------------------------

/// Whether every segment of the delimited text parses as a `T`.
pub open spec fn list_parses<T: FromSudoOptionList>(s: Seq<char>) -> bool {
    forall|i: int| 0 <= i < split_on(s, T::spec_separator()).len() ==> T::parses(
        #[trigger] split_on(s, T::spec_separator())[i],
    )
}

/// Whether `vs` holds the parses of the delimited text's segments, in
/// order.
pub open spec fn list_parsed<T: FromSudoOptionList>(s: Seq<char>, vs: Seq<T>) -> bool {
    &&& vs.len() == split_on(s, T::spec_separator()).len()
    &&& forall|i: int| 0 <= i < vs.len() ==> T::parsed(
        #[trigger] split_on(s, T::spec_separator())[i],
        vs[i],
    )
}

/// Splits the text on the type's separator and parses each segment,
/// failing on the first segment that does not parse; a failure aborts
/// the whole list.
pub fn parse_list<T: FromSudoOptionList>(s: &str) -> (r: Result<
    Vec<T>,
    <T as FromSudoOption>::Err,
>)
    ensures
        r is Ok <==> list_parses::<T>(s@),
        r matches Ok(vs) ==> list_parsed::<T>(s@, vs@),
{
    let segs = split_str(s, T::separator());
    let ghost gsegs = split_on(s@, T::spec_separator());
    let mut out: Vec<T> = Vec::new();
    let mut i: usize = 0;
    while i < segs.len()
        invariant
            segs.deep_view() == gsegs,
            gsegs == split_on(s@, T::spec_separator()),
            i <= segs@.len(),
            out@.len() == i,
            forall|j: int| 0 <= j < i ==> T::parses(#[trigger] gsegs[j]) && T::parsed(
                gsegs[j],
                out@[j],
            ),
        decreases segs@.len() - i,
    {
        let seg: &str = segs[i];
        proof {
            assert(seg@ == gsegs[i as int]);
        }
        match T::from_sudo_option(seg) {
            Ok(v) => {
                out.push(v);
            }
            Err(e) => {
                proof {
                    assert(!T::parses(gsegs[i as int]));
                }
                return Err(e);
            }
        }
        i += 1;
    }
    proof {
        assert(gsegs.len() == segs@.len());
    }
    Ok(out)
}

impl<T: FromSudoOptionList> FromSudoOption for Vec<T> {
    type Err = <T as FromSudoOption>::Err;

    open spec fn parses(s: Seq<char>) -> bool {
        list_parses::<T>(s)
    }

    open spec fn parsed(s: Seq<char>, v: Vec<T>) -> bool {
        list_parsed::<T>(s, v@)
    }

    fn from_sudo_option(s: &str) -> (r: Result<Self, Self::Err>) {
        parse_list::<T>(s)
    }
}

} // verus!
