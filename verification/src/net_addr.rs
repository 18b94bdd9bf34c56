//! The compound network-address-plus-mask value type.

use vstd::prelude::*;
use vstd::string::StrSliceExecFns;

use crate::coerce::{
    all_dec_digits, digit_val, digits_val, parse_u64, parse_u64_str, split_on, split_str,
    FromSudoOption, FromSudoOptionList,
};

verus! {

/// An IPv4 address, stored as its four dotted-quad octets, most
/// significant first.
#[derive(Clone, Copy, Debug, PartialEq, Eq, Structural)]
pub struct Ip4Addr {
    pub o1: u8,
    pub o2: u8,
    pub o3: u8,
    pub o4: u8,
}

/// A network and its boundary mask, as parsed from an
/// `address/mask` option token.
#[derive(Clone, Copy, Debug, PartialEq, Eq, Structural)]
pub struct NetAddr {
    pub addr: Ip4Addr,
    pub mask: Ip4Addr,
}

/// Why an `address/mask` token failed to parse.
#[derive(Clone, Copy, Debug, PartialEq, Eq, Structural)]
pub enum NetAddrError {
    /// The token has no `/`, so there is no mask segment to parse.
    MissingMask,
    /// The segment before the `/` is not a valid address.
    InvalidAddr,
    /// The segment after the `/` is not a valid mask.
    InvalidMask,
}

// ---------------------------------------------------------------------------
// The address grammar.
// ---------------------------------------------------------------------------

/// The value of one dotted-quad segment: one to three decimal digits
/// denoting at most 255.
pub open spec fn parse_octet(s: Seq<char>) -> Option<u8> {
    if 1 <= s.len() <= 3 && all_dec_digits(s) && digits_val(s) <= 255 {
        Some(digits_val(s) as u8)
    } else {
        None
    }
}

/// An octet of the mask with `k` leading one bits, for `k` clipped to
/// `0 ..= 8`.
pub open spec fn mask_octet(k: int) -> u8 {
    if k <= 0 {
        0
    } else if k == 1 {
        128
    } else if k == 2 {
        192
    } else if k == 3 {
        224
    } else if k == 4 {
        240
    } else if k == 5 {
        248
    } else if k == 6 {
        252
    } else if k == 7 {
        254
    } else {
        255
    }
}

/// `n` clipped to `0 ..= 8`.
pub open spec fn clip8(n: int) -> int {
    if n <= 0 {
        0
    } else if n >= 8 {
        8
    } else {
        n
    }
}

/// The dotted-quad mask with `n` leading one bits.
pub open spec fn prefix_mask(n: int) -> Ip4Addr
    recommends
        0 <= n <= 32,
{
    Ip4Addr {
        o1: mask_octet(clip8(n)),
        o2: mask_octet(clip8(n - 8)),
        o3: mask_octet(clip8(n - 16)),
        o4: mask_octet(clip8(n - 24)),
    }
}

/// A bare prefix length: one or two decimal digits denoting at most
/// 32, read as the mask with that many leading one bits.
pub open spec fn parse_prefix(s: Seq<char>) -> Option<Ip4Addr> {
    if 1 <= s.len() <= 2 && all_dec_digits(s) && digits_val(s) <= 32 {
        Some(prefix_mask(digits_val(s) as int))
    } else {
        None
    }
}

/// The address a string denotes: either a dotted quad `a.b.c.d`, or a
/// bare prefix length denoting the mask with that many leading one
/// bits (so that both `10.0.0.0/255.255.255.0` and `10.0.0.0/24` name
/// the same network).
pub open spec fn parse_addr(s: Seq<char>) -> Option<Ip4Addr> {
    let segs = split_on(s, '.');
    if segs.len() == 4 {
        if parse_octet(segs[0]) is Some && parse_octet(segs[1]) is Some && parse_octet(segs[2])
            is Some && parse_octet(segs[3]) is Some {
            Some(
                Ip4Addr {
                    o1: parse_octet(segs[0])->Some_0,
                    o2: parse_octet(segs[1])->Some_0,
                    o3: parse_octet(segs[2])->Some_0,
                    o4: parse_octet(segs[3])->Some_0,
                },
            )
        } else {
            None
        }
    } else if segs.len() == 1 {
        parse_prefix(s)
    } else {
        None
    }
}

/// The network/mask pair a token denotes: the segments before and
/// after the first `/`, each parsed as an address.  A token without a
/// `/` has no mask segment and denotes nothing.
pub open spec fn parse_net_addr(s: Seq<char>) -> Option<NetAddr> {
    match s.index_of_first('/') {
        Some(m) => match (parse_addr(s.take(m)), parse_addr(s.skip(m + 1))) {
            (Some(a), Some(k)) => Some(NetAddr { addr: a, mask: k }),
            _ => None,
        },
        None => None,
    }
}

/// Which error a token that denotes no network/mask pair is reported
/// with.
pub open spec fn net_addr_error(s: Seq<char>) -> NetAddrError
    recommends
        parse_net_addr(s) is None,
{
    match s.index_of_first('/') {
        None => NetAddrError::MissingMask,
        Some(m) => if parse_addr(s.take(m)) is None {
            NetAddrError::InvalidAddr
        } else {
            NetAddrError::InvalidMask
        },
    }
}

// ---------------------------------------------------------------------------
// Auxiliary lemmas.
// ---------------------------------------------------------------------------

/// Ten to the `n`-th power.
spec fn pow10(n: nat) -> nat
    decreases n,
{
    if n == 0 {
        1
    } else {
        10 * pow10((n - 1) as nat)
    }
}

/// A string of `n` digits denotes less than ten to the `n`-th.
proof fn lemma_digits_val_bound(s: Seq<char>)
    requires
        all_dec_digits(s),
    ensures
        digits_val(s) < pow10(s.len()),
    decreases s.len(),
{
    if s.len() == 0 {
    } else {
        let dl = s.drop_last();
        assert(all_dec_digits(dl)) by {
            assert forall|i: int| 0 <= i < dl.len() implies crate::coerce::is_dec_digit(
                #[trigger] dl[i],
            ) by {
                assert(dl[i] == s[i]);
            }
        }
        lemma_digits_val_bound(dl);
        assert(digit_val(s.last()) <= 9);
    }
}

/// Splitting always yields at least one segment.
pub proof fn lemma_split_on_nonempty(s: Seq<char>, sep: char)
    ensures
        split_on(s, sep).len() >= 1,
    decreases s.len(),
{
    s.index_of_first_ensures(sep);
    match s.index_of_first(sep) {
        Some(i) => {
            lemma_split_on_nonempty(s.skip(i + 1), sep);
        }
        None => {}
    }
}

/// A single segment is the whole string: the separator never occurred.
proof fn lemma_split_on_single(s: Seq<char>, sep: char)
    requires
        split_on(s, sep).len() == 1,
    ensures
        split_on(s, sep)[0] == s,
{
    s.index_of_first_ensures(sep);
    match s.index_of_first(sep) {
        Some(i) => {
            lemma_split_on_nonempty(s.skip(i + 1), sep);
        }
        None => {}
    }
}

// ---------------------------------------------------------------------------
// Executable parsing.
// ---------------------------------------------------------------------------

/// Parses one dotted-quad segment.
fn parse_octet_str(s: &str) -> (r: Option<u8>)
    ensures
        r == parse_octet(s@),
{
    let n = s.unicode_len();
    if n == 0 || n > 3 {
        return None;
    }
    match parse_u64_str(s) {
        Some(v) => {
            if v <= 255 {
                Some(v as u8)
            } else {
                None
            }
        }
        None => {
            proof {
                if all_dec_digits(s@) {
                    lemma_digits_val_bound(s@);
                    reveal_with_fuel(pow10, 4);
                    assert(pow10(s@.len()) <= 1000);
                    assert(parse_u64(s@) is Some);
                }
            }
            None
        }
    }
}

/// The mask octet covering bits `base .. base + 8` of an `n`-bit
/// prefix.
fn prefix_mask_octet(n: u8, base: u8) -> (r: u8)
    requires
        n <= 32,
        base <= 24,
    ensures
        r == mask_octet(clip8(n as int - base as int)),
{
    let k: u8 = if n <= base {
        0
    } else if n - base >= 8 {
        8
    } else {
        n - base
    };
    if k == 0 {
        0
    } else if k == 1 {
        128
    } else if k == 2 {
        192
    } else if k == 3 {
        224
    } else if k == 4 {
        240
    } else if k == 5 {
        248
    } else if k == 6 {
        252
    } else if k == 7 {
        254
    } else {
        255
    }
}

/// The dotted-quad mask with `n` leading one bits.
fn prefix_mask_quad(n: u8) -> (r: Ip4Addr)
    requires
        n <= 32,
    ensures
        r == prefix_mask(n as int),
{
    Ip4Addr {
        o1: prefix_mask_octet(n, 0),
        o2: prefix_mask_octet(n, 8),
        o3: prefix_mask_octet(n, 16),
        o4: prefix_mask_octet(n, 24),
    }
}

/// Parses a bare prefix length into its mask.
fn parse_prefix_str(s: &str) -> (r: Option<Ip4Addr>)
    ensures
        r == parse_prefix(s@),
{
    let n = s.unicode_len();
    if n == 0 || n > 2 {
        return None;
    }
    match parse_u64_str(s) {
        Some(v) => {
            if v <= 32 {
                Some(prefix_mask_quad(v as u8))
            } else {
                None
            }
        }
        None => {
            proof {
                if all_dec_digits(s@) {
                    lemma_digits_val_bound(s@);
                    reveal_with_fuel(pow10, 3);
                    assert(pow10(s@.len()) <= 100);
                    assert(parse_u64(s@) is Some);
                }
            }
            None
        }
    }
}

impl Ip4Addr {
    /// Parses an address: a dotted quad, or a bare prefix length read
    /// as its mask.
    pub fn parse(s: &str) -> (r: Option<Ip4Addr>)
        ensures
            r == parse_addr(s@),
    {
        let segs = split_str(s, '.');
        let ghost gsegs = split_on(s@, '.');
        if segs.len() == 4 {
            proof {
                assert(segs[0]@ == gsegs[0]);
                assert(segs[1]@ == gsegs[1]);
                assert(segs[2]@ == gsegs[2]);
                assert(segs[3]@ == gsegs[3]);
            }
            let o1 = parse_octet_str(segs[0]);
            let o2 = parse_octet_str(segs[1]);
            let o3 = parse_octet_str(segs[2]);
            let o4 = parse_octet_str(segs[3]);
            match (o1, o2, o3, o4) {
                (Some(o1), Some(o2), Some(o3), Some(o4)) => Some(Ip4Addr { o1, o2, o3, o4 }),
                _ => None,
            }
        } else if segs.len() == 1 {
            proof {
                lemma_split_on_single(s@, '.');
                assert(segs[0]@ == s@);
            }
            parse_prefix_str(segs[0])
        } else {
            None
        }
    }
}

impl FromSudoOption for NetAddr {
    type Err = NetAddrError;

    open spec fn parses(s: Seq<char>) -> bool {
        parse_net_addr(s) is Some
    }

    open spec fn parsed(s: Seq<char>, v: NetAddr) -> bool {
        parse_net_addr(s) == Some(v)
    }

    /// Splits the token at its first `/` and parses each side as an
    /// address.  A token without a `/` has no mask segment to parse
    /// and is rejected outright.
    fn from_sudo_option(s: &str) -> (r: Result<Self, NetAddrError>)
        ensures
            r matches Err(e) ==> e == net_addr_error(s@),
    {
        match crate::coerce::find_char(s, '/') {
            None => Err(NetAddrError::MissingMask),
            Some(m) => {
                let n = s.unicode_len();
                let left = s.substring_char(0, m);
                let right = s.substring_char(m + 1, n);
                proof {
                    assert(left@ =~= s@.take(m as int));
                    assert(right@ =~= s@.skip(m + 1));
                }
                match Ip4Addr::parse(left) {
                    None => Err(NetAddrError::InvalidAddr),
                    Some(addr) => match Ip4Addr::parse(right) {
                        None => Err(NetAddrError::InvalidMask),
                        Some(mask) => Ok(NetAddr { addr, mask }),
                    },
                }
            }
        }
    }
}

impl FromSudoOptionList for NetAddr {
    /// Network addresses are listed separated by single spaces.
    open spec fn spec_separator() -> char {
        ' '
    }

    fn separator() -> (c: char) {
        ' '
    }
}

} // verus!
