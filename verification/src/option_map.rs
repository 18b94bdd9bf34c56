//! The byte-keyed option map parsed from the host's option strings.

use vstd::prelude::*;
use vstd::slice::slice_to_vec;
use vstd::string::StringSliceAdditionalSpecFns;
use vstd::utf8::{decode_utf8, encode_utf8, valid_utf8};

use crate::coerce::FromSudoOption;
use crate::errors::Error;
use crate::OPTIONS_SEPARATOR;

verus! {

// ---------------------------------------------------------------------------
// The mathematical model: a sequence of option strings denotes a map.
// ---------------------------------------------------------------------------

/// The mapping described by an ordered sequence of key/value pairs:
/// a later pair overwrites an earlier one that shares its key.
pub open spec fn map_of_pairs(ps: Seq<(Seq<u8>, Seq<u8>)>) -> Map<Seq<u8>, Seq<u8>>
    decreases ps.len(),
{
    if ps.len() == 0 {
        Map::empty()
    } else {
        map_of_pairs(ps.drop_last()).insert(ps.last().0, ps.last().1)
    }
}

/// The key encoded by one option string: the bytes before the first
/// `=`, or the whole token when it has none.
pub open spec fn token_key(t: Seq<u8>) -> Seq<u8> {
    match t.index_of_first(OPTIONS_SEPARATOR) {
        Some(i) => t.take(i),
        None => t,
    }
}

/// The value encoded by one option string: the bytes after the first
/// `=`, or the whole token when it has none, so that a bare flag maps
/// to itself.
pub open spec fn token_value(t: Seq<u8>) -> Seq<u8> {
    match t.index_of_first(OPTIONS_SEPARATOR) {
        Some(i) => t.skip(i + 1),
        None => t,
    }
}

/// The key/value pairs encoded by a sequence of option strings.
pub open spec fn token_pairs(toks: Seq<Seq<u8>>) -> Seq<(Seq<u8>, Seq<u8>)> {
    toks.map_values(|t: Seq<u8>| (token_key(t), token_value(t)))
}

/// The mapping encoded by a sequence of option strings.
pub open spec fn map_of_tokens(toks: Seq<Seq<u8>>) -> Map<Seq<u8>, Seq<u8>> {
    map_of_pairs(token_pairs(toks))
}

/// The text value stored under a text key: `None` when the key is
/// absent or when its stored bytes are not valid UTF-8.
pub open spec fn opt_text(m: Map<Seq<u8>, Seq<u8>>, k: Seq<char>) -> Option<Seq<char>> {
    let kb = encode_utf8(k);
    if m.contains_key(kb) && valid_utf8(m[kb]) {
        Some(decode_utf8(m[kb]))
    } else {
        None
    }
}

/// The views of a sequence of owned key/value pairs.
pub open spec fn pairs_of(entries: Seq<(Vec<u8>, Vec<u8>)>) -> Seq<(Seq<u8>, Seq<u8>)> {
    entries.map_values(|p: (Vec<u8>, Vec<u8>)| (p.0@, p.1@))
}

// ---------------------------------------------------------------------------
// Laws of the model.
// ---------------------------------------------------------------------------

/// A pair whose key recurs in no later pair is what the map stores.
pub proof fn lemma_map_of_pairs_last(ps: Seq<(Seq<u8>, Seq<u8>)>, i: int)
    requires
        0 <= i < ps.len(),
        forall|j: int| i < j < ps.len() ==> ps[j].0 != ps[i].0,
    ensures
        map_of_pairs(ps).contains_key(ps[i].0),
        map_of_pairs(ps)[ps[i].0] == ps[i].1,
    decreases ps.len(),
{
    if i == ps.len() - 1 {
    } else {
        lemma_map_of_pairs_last(ps.drop_last(), i);
        assert(ps.drop_last()[i] == ps[i]);
    }
}

/// A key that occurs in no pair is not in the map.
pub proof fn lemma_map_of_pairs_absent(ps: Seq<(Seq<u8>, Seq<u8>)>, k: Seq<u8>)
    requires
        forall|j: int| 0 <= j < ps.len() ==> ps[j].0 != k,
    ensures
        !map_of_pairs(ps).contains_key(k),
    decreases ps.len(),
{
    if ps.len() > 0 {
        lemma_map_of_pairs_absent(ps.drop_last(), k);
    }
}

/// Splitting a `key=value` token whose key holds no separator gives
/// back the key and the value.
pub proof fn lemma_token_split(k: Seq<u8>, v: Seq<u8>)
    requires
        !k.contains(OPTIONS_SEPARATOR),
    ensures
        token_key(k + seq![OPTIONS_SEPARATOR] + v) == k,
        token_value(k + seq![OPTIONS_SEPARATOR] + v) == v,
{
    let t = k + seq![OPTIONS_SEPARATOR] + v;
    t.index_of_first_ensures(OPTIONS_SEPARATOR);
    assert(t[k.len() as int] == OPTIONS_SEPARATOR);
    assert(t.contains(OPTIONS_SEPARATOR));
    let idx = t.index_of_first(OPTIONS_SEPARATOR)->Some_0;
    assert forall|j: int| 0 <= j < k.len() implies t[j] != OPTIONS_SEPARATOR by {
        assert(t[j] == k[j]);
        if t[j] == OPTIONS_SEPARATOR {
            assert(k.contains(OPTIONS_SEPARATOR));
        }
    }
    assert(idx == k.len());
    assert(t.take(idx) =~= k);
    assert(t.skip(idx + 1) =~= v);
}

/// Law: a `key=value` token binds the key to the value, as long as no
/// later token reuses the key.
pub proof fn lemma_keyed_token_lookup(toks: Seq<Seq<u8>>, i: int, k: Seq<u8>, v: Seq<u8>)
    requires
        0 <= i < toks.len(),
        toks[i] == k + seq![OPTIONS_SEPARATOR] + v,
        !k.contains(OPTIONS_SEPARATOR),
        forall|j: int| i < j < toks.len() ==> token_key(toks[j]) != k,
    ensures
        map_of_tokens(toks).contains_key(k),
        map_of_tokens(toks)[k] == v,
{
    lemma_token_split(k, v);
    assert(token_pairs(toks)[i] == (k, v));
    assert forall|j: int| i < j < toks.len() implies token_pairs(toks)[j].0 != token_pairs(toks)[i].0 by {
        assert(token_pairs(toks)[j].0 == token_key(toks[j]));
    }
    lemma_map_of_pairs_last(token_pairs(toks), i);
}

/// Law: a `key=value` option string whose key and value are encoded
/// text makes the value retrievable as text by the key, as long as no
/// later token reuses the key.
pub proof fn lemma_text_token_lookup(toks: Seq<Seq<u8>>, i: int, k: Seq<char>, v: Seq<char>)
    requires
        0 <= i < toks.len(),
        toks[i] == encode_utf8(k) + seq![OPTIONS_SEPARATOR] + encode_utf8(v),
        !encode_utf8(k).contains(OPTIONS_SEPARATOR),
        forall|j: int| i < j < toks.len() ==> token_key(toks[j]) != encode_utf8(k),
    ensures
        opt_text(map_of_tokens(toks), k) == Some(v),
{
    lemma_keyed_token_lookup(toks, i, encode_utf8(k), encode_utf8(v));
    vstd::utf8::encode_utf8_valid_utf8(v);
    vstd::utf8::encode_utf8_decode_utf8(v);
}

/// Law: when several tokens share a key, the last one supplies the
/// stored value.
pub proof fn lemma_duplicate_overwrite(toks: Seq<Seq<u8>>, i: int, j: int)
    requires
        0 <= i < j < toks.len(),
        token_key(toks[i]) == token_key(toks[j]),
        forall|l: int| j < l < toks.len() ==> token_key(toks[l]) != token_key(toks[j]),
    ensures
        map_of_tokens(toks).contains_key(token_key(toks[j])),
        map_of_tokens(toks)[token_key(toks[j])] == token_value(toks[j]),
{
    assert(token_pairs(toks)[j] == (token_key(toks[j]), token_value(toks[j])));
    assert forall|l: int| j < l < toks.len() implies token_pairs(toks)[l].0 != token_pairs(toks)[j].0 by {
        assert(token_pairs(toks)[l].0 == token_key(toks[l]));
    }
    lemma_map_of_pairs_last(token_pairs(toks), j);
}

/// Law: a token without a separator maps itself to itself, as long as
/// no later token reuses it as a key.
pub proof fn lemma_self_mapping(toks: Seq<Seq<u8>>, i: int)
    requires
        0 <= i < toks.len(),
        !toks[i].contains(OPTIONS_SEPARATOR),
        forall|j: int| i < j < toks.len() ==> token_key(toks[j]) != toks[i],
    ensures
        map_of_tokens(toks).contains_key(toks[i]),
        map_of_tokens(toks)[toks[i]] == toks[i],
{
    toks[i].index_of_first_ensures(OPTIONS_SEPARATOR);
    assert(token_key(toks[i]) == toks[i]);
    assert(token_value(toks[i]) == toks[i]);
    assert(token_pairs(toks)[i] == (toks[i], toks[i]));
    assert forall|j: int| i < j < toks.len() implies token_pairs(toks)[j].0 != token_pairs(toks)[i].0 by {
        assert(token_pairs(toks)[j].0 == token_key(toks[j]));
    }
    lemma_map_of_pairs_last(token_pairs(toks), i);
}

/// Law: no tokens at all encode the empty map.
pub proof fn lemma_no_tokens_empty_map()
    ensures
        map_of_tokens(Seq::<Seq<u8>>::empty()) == Map::<Seq<u8>, Seq<u8>>::empty(),
{
    assert(token_pairs(Seq::<Seq<u8>>::empty()).len() == 0);
}

// ---------------------------------------------------------------------------
// Executable helpers.
// ---------------------------------------------------------------------------

/// Position of the first occurrence of `b` in `s`, if any.
fn find_byte(s: &[u8], b: u8) -> (r: Option<usize>)
    ensures
        match r {
            Some(i) => s@.index_of_first(b) == Some(i as int) && i < s@.len(),
            None => s@.index_of_first(b) is None,
        },
{
    let n = s.len();
    let mut i: usize = 0;
    while i < n
        invariant
            n == s@.len(),
            i <= n,
            forall|j: int| 0 <= j < i ==> s@[j] != b,
        decreases n - i,
    {
        if s[i] == b {
            proof {
                s@.index_of_first_ensures(b);
                assert(s@.contains(b)) by {
                    assert(s@[i as int] == b);
                }
                let idx = s@.index_of_first(b)->Some_0;
                assert(idx == i) by {
                    if idx < i {
                        assert(s@[idx] != b);
                    }
                    if idx > i {
                        assert(s@[i as int] != b);
                    }
                }
            }
            return Some(i);
        }
        i += 1;
    }
    proof {
        s@.index_of_first_ensures(b);
        if s@.contains(b) {
            let w = choose|w: int| 0 <= w < s@.len() && s@[w] == b;
            assert(s@[w] != b);
        }
    }
    None
}

/// Whether two byte slices hold the same bytes.
fn bytes_eq(a: &[u8], b: &[u8]) -> (r: bool)
    ensures
        r == (a@ == b@),
{
    if a.len() != b.len() {
        proof {
            if a@ == b@ {
                assert(a@.len() == b@.len());
            }
        }
        return false;
    }
    let n = a.len();
    let mut i: usize = 0;
    while i < n
        invariant
            n == a@.len(),
            a@.len() == b@.len(),
            i <= n,
            forall|j: int| 0 <= j < i ==> a@[j] == b@[j],
        decreases n - i,
    {
        if a[i] != b[i] {
            proof {
                if a@ == b@ {
                    assert(a@[i as int] == b@[i as int]);
                }
            }
            return false;
        }
        i += 1;
    }
    proof {
        assert(a@ =~= b@);
    }
    true
}

/// Relies on `core::str::from_utf8`: it returns `Ok` exactly on valid
/// UTF-8 input, and the returned string borrows the decoding of the
/// bytes.
#[verifier::external_body]
fn utf8_str(b: &[u8]) -> (r: Option<&str>)
    ensures
        r is Some <==> valid_utf8(b@),
        r matches Some(v) ==> v@ == decode_utf8(b@),
{
    core::str::from_utf8(b).ok()
}

// ---------------------------------------------------------------------------
// The map itself.
// ---------------------------------------------------------------------------

/// A key/value store of the options handed to the plugin by its host,
/// parsed from owned copies of the host's `key=value` byte strings.
///
/// Values can be fetched as raw bytes, as text, or as any type that
/// implements the coercion contract [`crate::coerce::FromSudoOption`].
#[derive(Clone, Debug)]
pub struct OptionMap {
    entries: Vec<(Vec<u8>, Vec<u8>)>,
}

impl View for OptionMap {
    type V = Map<Seq<u8>, Seq<u8>>;

    closed spec fn view(&self) -> Map<Seq<u8>, Seq<u8>> {
        map_of_pairs(pairs_of(self.entries@))
    }
}

impl OptionMap {
    /// Builds the map from one owned byte string per option, each the
    /// contents of one entry of the host's sentinel-terminated array,
    /// without its terminating NUL.  Each token is split at its first
    /// `=`; a token without one maps to itself, so that bare flags can
    /// still be looked up.  Later tokens overwrite earlier ones that
    /// share a key.
    pub fn new(tokens: Vec<Vec<u8>>) -> (r: Self)
        ensures
            r@ == map_of_tokens(tokens.deep_view()),
    {
        let ghost td = tokens.deep_view();
        let mut entries: Vec<(Vec<u8>, Vec<u8>)> = Vec::new();
        let mut idx: usize = 0;
        while idx < tokens.len()
            invariant
                idx <= tokens.len(),
                td == tokens.deep_view(),
                td.len() == tokens@.len(),
                pairs_of(entries@) =~= token_pairs(td.take(idx as int)),
            decreases tokens.len() - idx,
        {
            let t = &tokens[idx];
            proof {
                assert(td[idx as int] =~= t@);
            }
            let ts = t.as_slice();
            let n = ts.len();
            let ghost old_entries = entries@;
            match find_byte(ts, OPTIONS_SEPARATOR) {
                Some(s) => {
                    let k = slice_to_vec(&ts[0..s]);
                    let v = slice_to_vec(&ts[s + 1..n]);
                    proof {
                        assert(k@ =~= token_key(td[idx as int]));
                        assert(v@ =~= token_value(td[idx as int]));
                    }
                    entries.push((k, v));
                }
                None => {
                    let k = slice_to_vec(ts);
                    let v = slice_to_vec(ts);
                    proof {
                        assert(k@ =~= token_key(td[idx as int]));
                        assert(v@ =~= token_value(td[idx as int]));
                    }
                    entries.push((k, v));
                }
            }
            proof {
                assert(pairs_of(entries@) =~= token_pairs(td.take(idx + 1))) by {
                    assert(pairs_of(old_entries).len() == old_entries.len());
                    assert(token_pairs(td.take(idx as int)).len() == idx);
                    assert(old_entries.len() == idx);
                    assert(entries@.len() == idx + 1);
                    assert forall|j: int| 0 <= j <= idx implies pairs_of(entries@)[j] == token_pairs(
                        td.take(idx + 1),
                    )[j] by {
                        assert(td.take(idx + 1)[j] == td[j]);
                        if j < idx {
                            assert(entries@[j] == old_entries[j]);
                            assert(pairs_of(old_entries)[j] == token_pairs(td.take(idx as int))[j]);
                            assert(td.take(idx as int)[j] == td[j]);
                        }
                    }
                }
            }
            idx += 1;
        }
        proof {
            assert(td.take(tokens@.len() as int) =~= td);
        }
        OptionMap { entries }
    }

    /// Fetches the value stored under a text key as text; `None` when
    /// the key has no entry or when the stored bytes are not valid
    /// UTF-8.
    pub fn get_str(&self, k: &str) -> (r: Option<&str>)
        ensures
            match r {
                Some(v) => opt_text(self@, k@) == Some(v@),
                None => opt_text(self@, k@) is None,
            },
    {
        proof {
            assert(k.spec_bytes() == encode_utf8(k@));
        }
        match self.get_bytes(k.as_bytes()) {
            Some(b) => utf8_str(b),
            None => None,
        }
    }

    /// Fetches the value stored under a text key as any type that
    /// implements the coercion contract.  The error names the key and
    /// says whether it was absent, not valid text, or failed the
    /// type-specific parse.
    pub fn get<T: FromSudoOption>(&self, k: &str) -> (r: Result<T, Error>)
        ensures
            ({
                let kb = encode_utf8(k@);
                if !self@.contains_key(kb) {
                    r matches Err(e) && e is MissingOption && e.spec_key() == k@
                } else if !valid_utf8(self@[kb]) {
                    r matches Err(e) && e is EncodingError && e.spec_key() == k@
                } else if T::parses(decode_utf8(self@[kb])) {
                    r matches Ok(v) && T::parsed(decode_utf8(self@[kb]), v)
                } else {
                    r matches Err(e) && e is ParseError && e.spec_key() == k@
                }
            }),
    {
        proof {
            assert(k.spec_bytes() == encode_utf8(k@));
        }
        match self.get_bytes(k.as_bytes()) {
            None => Err(Error::MissingOption(k.to_owned())),
            Some(b) => match utf8_str(b) {
                None => Err(Error::EncodingError(k.to_owned())),
                Some(v) => match T::from_sudo_option(v) {
                    Ok(t) => Ok(t),
                    Err(_) => Err(Error::ParseError(k.to_owned())),
                },
            },
        }
    }

    /// Fetches the raw bytes stored under a byte key; `None` when the
    /// key has no entry.
    pub fn get_bytes(&self, k: &[u8]) -> (r: Option<&[u8]>)
        ensures
            match r {
                Some(v) => self@.contains_key(k@) && v@ == self@[k@],
                None => !self@.contains_key(k@),
            },
    {
        let mut i: usize = self.entries.len();
        while i > 0
            invariant
                i <= self.entries@.len(),
                forall|j: int| i <= j < self.entries@.len() ==> pairs_of(self.entries@)[j].0 != k@,
            decreases i,
        {
            i -= 1;
            let entry = &self.entries[i];
            if bytes_eq(entry.0.as_slice(), k) {
                proof {
                    assert(pairs_of(self.entries@)[i as int].0 == k@);
                    lemma_map_of_pairs_last(pairs_of(self.entries@), i as int);
                }
                return Some(self.entries[i].1.as_slice());
            }
        }
        proof {
            lemma_map_of_pairs_absent(pairs_of(self.entries@), k@);
        }
        None
    }
}

impl Default for OptionMap {
    /// The empty option map.
    fn default() -> (r: OptionMap)
        ensures
            r@ == Map::<Seq<u8>, Seq<u8>>::empty(),
    {
        let r = OptionMap { entries: Vec::new() };
        proof {
            assert(pairs_of(r.entries@).len() == 0);
        }
        r
    }
}

} // verus!

