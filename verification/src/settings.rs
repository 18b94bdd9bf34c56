//! The fixed-schema, typed configuration derived from an option map.

use vstd::prelude::*;
use vstd::string::StrSliceExecFns;
use vstd::utf8::{encode_utf8, valid_utf8};

use crate::coerce::{list_parses, parse_bool, parse_u64, split_on, FromSudoOptionList};
use crate::errors::Error;
use crate::net_addr::{parse_net_addr, NetAddr};
use crate::option_map::{opt_text, OptionMap};

verus! {

// ---------------------------------------------------------------------------
// How each kind of field is derived from the map.
// ---------------------------------------------------------------------------

/// An optional text field holds the stored text exactly when the key
/// is present and its bytes are text; any failure leaves it unset.
pub open spec fn opt_string_field(m: Map<Seq<u8>, Seq<u8>>, k: Seq<char>, f: Option<String>) -> bool {
    match opt_text(m, k) {
        Some(v) => f matches Some(x) && x@ == v,
        None => f is None,
    }
}

/// An optional unsigned-integer field: any failure leaves it unset.
pub open spec fn opt_u64_field(m: Map<Seq<u8>, Seq<u8>>, k: Seq<char>) -> Option<u64> {
    match opt_text(m, k) {
        Some(v) => parse_u64(v),
        None => None,
    }
}

/// A boolean field is `true` exactly when the key is present, its
/// value is text, and that text is the canonical `true`; absence and
/// every failure default to `false`.
pub open spec fn flag_field(m: Map<Seq<u8>, Seq<u8>>, k: Seq<char>) -> bool {
    match opt_text(m, k) {
        Some(v) => parse_bool(v) == Some(true),
        None => false,
    }
}

/// The network-address list field: the parses of the space-separated
/// segments when every one of them parses, and empty on absence or any
/// failure.
pub open spec fn addrs_field(m: Map<Seq<u8>, Seq<u8>>, k: Seq<char>) -> Seq<NetAddr> {
    match opt_text(m, k) {
        Some(v) => if list_parses::<NetAddr>(v) {
            split_on(v, NetAddr::spec_separator()).map_values(
                |g: Seq<char>| parse_net_addr(g)->Some_0,
            )
        } else {
            Seq::empty()
        },
        None => Seq::empty(),
    }
}

/// Whether all three required fields can be produced from the map.
pub open spec fn required_present(m: Map<Seq<u8>, Seq<u8>>) -> bool {
    &&& opt_text(m, "plugin_dir"@) is Some
    &&& opt_text(m, "plugin_path"@) is Some
    &&& opt_text(m, "progname"@) is Some
}

/// The error surfaced for a map that cannot produce some required
/// field: it names the first of the three that fails, and says whether
/// that key was absent or its bytes were not text.
pub open spec fn required_error(m: Map<Seq<u8>, Seq<u8>>, e: Error) -> bool {
    let k = if opt_text(m, "plugin_dir"@) is None {
        "plugin_dir"@
    } else if opt_text(m, "plugin_path"@) is None {
        "plugin_path"@
    } else {
        "progname"@
    };
    &&& e.spec_key() == k
    &&& (e is MissingOption <==> !m.contains_key(encode_utf8(k)))
    &&& (e is EncodingError <==> m.contains_key(encode_utf8(k)) && !valid_utf8(m[encode_utf8(k)]))
    &&& !(e is ParseError)
}

/// How every field of a settings record is derived from the map.
pub open spec fn settings_from(s: Settings, m: Map<Seq<u8>, Seq<u8>>) -> bool {
    &&& s.plugin_dir@ == opt_text(m, "plugin_dir"@)->Some_0
    &&& s.plugin_path@ == opt_text(m, "plugin_path"@)->Some_0
    &&& s.progname@ == opt_text(m, "progname"@)->Some_0
    &&& opt_string_field(m, "bsd_auth_type"@, s.bsd_auth_type)
    &&& s.close_from == opt_u64_field(m, "closefrom"@)
    &&& opt_string_field(m, "debug_flags"@, s.debug_flags)
    &&& s.debug_level == opt_u64_field(m, "debug_level"@)
    &&& s.ignore_ticket == flag_field(m, "ignore_ticket"@)
    &&& s.implied_shell == flag_field(m, "implied_shell"@)
    &&& opt_string_field(m, "login_class"@, s.login_class)
    &&& s.login_shell == flag_field(m, "login_shell"@)
    &&& s.max_groups == opt_u64_field(m, "max_groups"@)
    &&& s.network_addrs@ == addrs_field(m, "network_addrs"@)
    &&& s.noninteractive == flag_field(m, "noninteractive"@)
    &&& s.preserve_environment == flag_field(m, "preserve_environment"@)
    &&& s.preserve_groups == flag_field(m, "preserve_groups"@)
    &&& opt_string_field(m, "prompt"@, s.prompt)
    &&& opt_string_field(m, "remote_host"@, s.remote_host)
    &&& s.run_shell == flag_field(m, "run_shell"@)
    &&& opt_string_field(m, "runas_group"@, s.runas_group)
    &&& opt_string_field(m, "runas_user"@, s.runas_user)
    &&& opt_string_field(m, "selinux_role"@, s.selinux_role)
    &&& opt_string_field(m, "selinux_type"@, s.selinux_type)
    &&& s.set_home == flag_field(m, "set_home"@)
    &&& s.sudoedit == flag_field(m, "sudoedit"@)
    &&& s.raw@ == m
}

// ---------------------------------------------------------------------------
// Lookup helpers with the silent-defaulting policy.
// ---------------------------------------------------------------------------

/// Required lookup: the first failure propagates, naming its key.
fn req_string(raw: &OptionMap, k: &str) -> (r: Result<String, Error>)
    ensures
        r is Ok <==> opt_text(raw@, k@) is Some,
        r matches Ok(v) ==> opt_text(raw@, k@) == Some(v@),
        r matches Err(e) ==> {
            &&& e.spec_key() == k@
            &&& (e is MissingOption <==> !raw@.contains_key(encode_utf8(k@)))
            &&& (e is EncodingError <==> raw@.contains_key(encode_utf8(k@)) && !valid_utf8(
                raw@[encode_utf8(k@)],
            ))
            &&& !(e is ParseError)
        },
{
    raw.get::<String>(k)
}

/// Optional text lookup: any failure coalesces to `None`.
fn opt_string(raw: &OptionMap, k: &str) -> (r: Option<String>)
    ensures
        opt_string_field(raw@, k@, r),
{
    match raw.get::<String>(k) {
        Ok(v) => Some(v),
        Err(_) => None,
    }
}

/// Optional integer lookup: any failure coalesces to `None`.
fn opt_u64(raw: &OptionMap, k: &str) -> (r: Option<u64>)
    ensures
        r == opt_u64_field(raw@, k@),
{
    match raw.get::<u64>(k) {
        Ok(v) => Some(v),
        Err(_) => None,
    }
}

/// Boolean lookup: any failure coalesces to `false`.
fn opt_flag(raw: &OptionMap, k: &str) -> (r: bool)
    ensures
        r == flag_field(raw@, k@),
{
    match raw.get::<bool>(k) {
        Ok(v) => v,
        Err(_) => false,
    }
}

/// Address-list lookup: any failure coalesces to the empty list.
fn opt_addrs(raw: &OptionMap, k: &str) -> (r: Vec<NetAddr>)
    ensures
        r@ == addrs_field(raw@, k@),
{
    match raw.get::<Vec<NetAddr>>(k) {
        Ok(v) => {
            proof {
                let text = opt_text(raw@, k@)->Some_0;
                assert(v@ =~= split_on(text, NetAddr::spec_separator()).map_values(
                    |g: Seq<char>| parse_net_addr(g)->Some_0,
                ));
            }
            v
        }
        Err(_) => Vec::new(),
    }
}

// ---------------------------------------------------------------------------
// The settings record.
// ---------------------------------------------------------------------------

/// The typed configuration handed to the plugin, derived once from an
/// [`OptionMap`] and immutable thereafter.  Three fields are required;
/// every other field has a well-defined default that absence or any
/// parse failure falls back to.
#[derive(Debug)]
pub struct Settings {
    pub bsd_auth_type: Option<String>,
    pub close_from: Option<u64>,
    pub debug_flags: Option<String>,
    pub debug_level: Option<u64>,
    pub ignore_ticket: bool,
    pub implied_shell: bool,
    pub login_class: Option<String>,
    pub login_shell: bool,
    pub max_groups: Option<u64>,
    pub network_addrs: Vec<NetAddr>,
    pub noninteractive: bool,
    pub plugin_dir: String,
    pub plugin_path: String,
    pub preserve_environment: bool,
    pub preserve_groups: bool,
    pub progname: String,
    pub prompt: Option<String>,
    pub remote_host: Option<String>,
    pub run_shell: bool,
    pub runas_group: Option<String>,
    pub runas_user: Option<String>,
    pub selinux_role: Option<String>,
    pub selinux_type: Option<String>,
    pub set_home: bool,
    pub sudoedit: bool,
    /// The full option map, retained for lookups of keys outside the
    /// fixed schema.
    pub raw: OptionMap,
}

/// The command-line tokens [`Settings::flags`] derives: `-u` with the
/// run-as user, `-g` with the run-as group, `-i`, `-s`, in that fixed
/// order, each emitted only when its source field is set.
pub open spec fn flags_of(s: Settings) -> Seq<Seq<u8>> {
    let user = match s.runas_user {
        Some(u) => seq![encode_utf8("-u"@), encode_utf8(u@)],
        None => Seq::<Seq<u8>>::empty(),
    };
    let group = match s.runas_group {
        Some(g) => seq![encode_utf8("-g"@), encode_utf8(g@)],
        None => Seq::<Seq<u8>>::empty(),
    };
    let login = if s.login_shell {
        seq![encode_utf8("-i"@)]
    } else {
        Seq::<Seq<u8>>::empty()
    };
    let shell = if s.run_shell {
        seq![encode_utf8("-s"@)]
    } else {
        Seq::<Seq<u8>>::empty()
    };
    user + group + login + shell
}

impl Settings {
    /// Derives the typed configuration from a completed option map.
    ///
    /// The three required fields are resolved first, in a fixed order,
    /// and the first of them that cannot be produced aborts
    /// construction with an error naming its key.  Every optional
    /// field coalesces any failure to its default, by design.  The map
    /// itself is retained unmodified.
    pub fn new(raw: OptionMap) -> (r: Result<Self, Error>)
        ensures
            r is Ok <==> required_present(raw@),
            r matches Ok(s) ==> settings_from(s, raw@),
            r matches Err(e) ==> required_error(raw@, e),
    {
        let plugin_dir = match req_string(&raw, "plugin_dir") {
            Ok(v) => v,
            Err(e) => {
                return Err(e);
            }
        };
        let plugin_path = match req_string(&raw, "plugin_path") {
            Ok(v) => v,
            Err(e) => {
                return Err(e);
            }
        };
        let progname = match req_string(&raw, "progname") {
            Ok(v) => v,
            Err(e) => {
                return Err(e);
            }
        };

        Ok(
            Self {
                plugin_dir,
                plugin_path,
                progname,
                bsd_auth_type: opt_string(&raw, "bsd_auth_type"),
                close_from: opt_u64(&raw, "closefrom"),
                debug_flags: opt_string(&raw, "debug_flags"),
                debug_level: opt_u64(&raw, "debug_level"),
                ignore_ticket: opt_flag(&raw, "ignore_ticket"),
                implied_shell: opt_flag(&raw, "implied_shell"),
                login_class: opt_string(&raw, "login_class"),
                login_shell: opt_flag(&raw, "login_shell"),
                max_groups: opt_u64(&raw, "max_groups"),
                network_addrs: opt_addrs(&raw, "network_addrs"),
                noninteractive: opt_flag(&raw, "noninteractive"),
                preserve_environment: opt_flag(&raw, "preserve_environment"),
                preserve_groups: opt_flag(&raw, "preserve_groups"),
                prompt: opt_string(&raw, "prompt"),
                remote_host: opt_string(&raw, "remote_host"),
                run_shell: opt_flag(&raw, "run_shell"),
                runas_group: opt_string(&raw, "runas_group"),
                runas_user: opt_string(&raw, "runas_user"),
                selinux_role: opt_string(&raw, "selinux_role"),
                selinux_type: opt_string(&raw, "selinux_type"),
                set_home: opt_flag(&raw, "set_home"),
                sudoedit: opt_flag(&raw, "sudoedit"),
                raw,
            },
        )
    }

    /// Projects the run-as and shell fields into an ordered sequence
    /// of command-line tokens for re-invoking a privileged command.
    /// The order is part of the contract: `-u` and its user, `-g` and
    /// its group, `-i`, `-s`.
    pub fn flags(&self) -> (r: Vec<Vec<u8>>)
        ensures
            r.deep_view() == flags_of(*self),
    {
        let ghost user_part = match &self.runas_user {
            Some(u) => seq![encode_utf8("-u"@), encode_utf8(u@)],
            None => Seq::<Seq<u8>>::empty(),
        };
        let ghost group_part = match &self.runas_group {
            Some(g) => seq![encode_utf8("-g"@), encode_utf8(g@)],
            None => Seq::<Seq<u8>>::empty(),
        };

        let mut flags: Vec<Vec<u8>> = Vec::new();

        if let Some(runas_user) = &self.runas_user {
            flags.push("-u".as_bytes_vec());
            flags.push(runas_user.as_str().as_bytes_vec());
        }
        proof {
            assert(flags.deep_view() =~~= user_part);
        }

        if let Some(runas_group) = &self.runas_group {
            flags.push("-g".as_bytes_vec());
            flags.push(runas_group.as_str().as_bytes_vec());
        }
        proof {
            assert(flags.deep_view() =~~= user_part + group_part);
        }

        if self.login_shell {
            flags.push("-i".as_bytes_vec());
        }
        proof {
            assert(flags.deep_view() =~~= user_part + group_part + (if self.login_shell {
                seq![encode_utf8("-i"@)]
            } else {
                Seq::<Seq<u8>>::empty()
            }));
        }

        if self.run_shell {
            flags.push("-s".as_bytes_vec());
        }
        proof {
            assert(flags.deep_view() =~~= flags_of(*self));
        }

        flags
    }
}

} // verus!

