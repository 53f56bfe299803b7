//! Plugins: manifests, declared hooks, compatibility checks, hook replies,
//! and the commands that manage installed plugins.
use vstd::prelude::*;

use crate::text::{dec_chars, find_char, index_of_from, str_equal, usize_to_string};

verus! {

/// ABI version of the plugin interface this core provides.
pub const CORE_ABI_VERSION: u32 = 1;

/// Hook bits of a plugin's mask.
pub const HOOK_PRE_BUILD: u32 = 1;

pub const HOOK_POST_CONVERT: u32 = 2;

pub const HOOK_POST_RENDER: u32 = 4;

pub const HOOK_POST_BUILD: u32 = 8;

/// Default hook timeout in milliseconds.
pub const DEFAULT_TIMEOUT_MS: u64 = 10000;

/// Version of norgolith that plugins are checked against.
pub open spec fn core_version() -> Seq<char> {
    "1.0.1"@
}

pub fn core_version_str() -> (r: &'static str)
    ensures
        r@ == core_version(),
{
    "1.0.1"
}

// ---------------------------------------------------------------------
// Manifest
// ---------------------------------------------------------------------

/// A `plugin.toml` manifest.
pub struct PluginManifest {
    pub plugin: PluginMetadata,
    pub hooks: HookConfig,
    pub capabilities: Capabilities,
    pub timeout_ms: u64,
    /// Execution priority (lower runs first).
    pub priority: u32,
}

pub struct PluginMetadata {
    /// Name of the plugin (e.g. "my-plugin").
    pub name: String,
    /// Semver requirement on norgolith (e.g. ">=0.4.0").
    pub norgolith: String,
    /// ABI version the plugin was compiled against.
    pub abi: u32,
}

/// The hooks a plugin declares.
#[derive(Clone, Copy, Debug, PartialEq, Eq, Structural)]
pub struct HookConfig {
    pub pre_build: bool,
    pub post_convert: bool,
    pub post_render: bool,
    pub post_build: bool,
}

/// What a plugin may do.
#[derive(Clone, Copy, Debug, PartialEq, Eq, Structural)]
pub struct Capabilities {
    pub filesystem: FilesystemAccess,
    pub network: bool,
}

/// Filesystem confinement of a plugin.
#[derive(Clone, Copy, Debug, PartialEq, Eq, Structural)]
pub enum FilesystemAccess {
    NoAccess,
    Read,
    Write,
    ReadWrite,
}

impl Default for FilesystemAccess {
    fn default() -> (r: Self)
        ensures
            r == FilesystemAccess::NoAccess,
    {
        FilesystemAccess::NoAccess
    }
}

impl Default for Capabilities {
    fn default() -> (r: Self)
        ensures
            r == (Capabilities { filesystem: FilesystemAccess::NoAccess, network: false }),
    {
        Capabilities { filesystem: FilesystemAccess::NoAccess, network: false }
    }
}

/// Priority of a plugin whose manifest names none.
pub fn default_priority() -> (r: u32)
    ensures
        r == 100,
{
    100
}

/// Hook timeout of a plugin whose manifest names none.
pub fn default_timeout_ms() -> (r: u64)
    ensures
        r == DEFAULT_TIMEOUT_MS,
{
    DEFAULT_TIMEOUT_MS
}

pub open spec fn flag(b: bool, bit: u32) -> u32 {
    if b {
        bit
    } else {
        0
    }
}

impl HookConfig {
    /// The hook bitmask: pre_build 1, post_convert 2, post_render 4,
    /// post_build 8.
    pub open spec fn mask_spec(self) -> u32 {
        (flag(self.pre_build, 1) + flag(self.post_convert, 2) + flag(self.post_render, 4) + flag(
            self.post_build,
            8,
        )) as u32
    }

    /// Names of the declared hooks, in pipeline order.
    pub open spec fn declared_spec(self) -> Seq<Seq<char>> {
        (if self.pre_build {
            seq!["pre_build"@]
        } else {
            seq![]
        }) + (if self.post_convert {
            seq!["post_convert"@]
        } else {
            seq![]
        }) + (if self.post_render {
            seq!["post_render"@]
        } else {
            seq![]
        }) + (if self.post_build {
            seq!["post_build"@]
        } else {
            seq![]
        })
    }

    /// Bitmask of the declared hooks.
    pub fn to_mask(&self) -> (r: u32)
        ensures
            r == self.mask_spec(),
    {
        assert(forall|m: u32| m < 1 ==> #[trigger] (m | 1u32) == m + 1) by (bit_vector);
        assert(forall|m: u32| m < 2 ==> #[trigger] (m | 2u32) == m + 2) by (bit_vector);
        assert(forall|m: u32| m < 4 ==> #[trigger] (m | 4u32) == m + 4) by (bit_vector);
        assert(forall|m: u32| m < 8 ==> #[trigger] (m | 8u32) == m + 8) by (bit_vector);
        let mut mask: u32 = 0;
        if self.pre_build {
            mask = mask | HOOK_PRE_BUILD;
        }
        assert(mask == flag(self.pre_build, 1));
        if self.post_convert {
            mask = mask | HOOK_POST_CONVERT;
        }
        assert(mask == flag(self.pre_build, 1) + flag(self.post_convert, 2));
        if self.post_render {
            mask = mask | HOOK_POST_RENDER;
        }
        assert(mask == flag(self.pre_build, 1) + flag(self.post_convert, 2) + flag(
            self.post_render,
            4,
        ));
        if self.post_build {
            mask = mask | HOOK_POST_BUILD;
        }
        mask
    }

    /// Names of the declared hooks, in pipeline order.
    pub fn declared_hooks(&self) -> (r: Vec<&'static str>)
        ensures
            r@.len() == self.declared_spec().len(),
            forall|i: int| 0 <= i < r@.len() ==> (#[trigger] r@[i])@ == self.declared_spec()[i],
    {
        let mut hooks: Vec<&'static str> = Vec::new();
        let ghost e: Seq<Seq<char>> = seq![];
        if self.pre_build {
            hooks.push("pre_build");
        }
        let ghost s1 = if self.pre_build {
            seq!["pre_build"@]
        } else {
            e
        };
        assert(hooks@.len() == s1.len() && forall|i: int| 0 <= i < hooks@.len() ==> hooks@[i]@ == s1[i]);
        if self.post_convert {
            hooks.push("post_convert");
        }
        let ghost s2 = s1 + if self.post_convert {
            seq!["post_convert"@]
        } else {
            e
        };
        assert(hooks@.len() == s2.len() && forall|i: int| 0 <= i < hooks@.len() ==> hooks@[i]@ == s2[i]);
        if self.post_render {
            hooks.push("post_render");
        }
        let ghost s3 = s2 + if self.post_render {
            seq!["post_render"@]
        } else {
            e
        };
        assert(hooks@.len() == s3.len() && forall|i: int| 0 <= i < hooks@.len() ==> hooks@[i]@ == s3[i]);
        if self.post_build {
            hooks.push("post_build");
        }
        let ghost s4 = s3 + if self.post_build {
            seq!["post_build"@]
        } else {
            e
        };
        assert(s4 =~= self.declared_spec());
        hooks
    }
}

/// A hook's bit is set in the mask exactly when the hook is declared, and
/// no other bit is.
pub proof fn lemma_mask_bits(h: HookConfig)
    ensures
        (h.mask_spec() & HOOK_PRE_BUILD != 0) == h.pre_build,
        (h.mask_spec() & HOOK_POST_CONVERT != 0) == h.post_convert,
        (h.mask_spec() & HOOK_POST_RENDER != 0) == h.post_render,
        (h.mask_spec() & HOOK_POST_BUILD != 0) == h.post_build,
        h.mask_spec() < 16,
{
    let a = flag(h.pre_build, 1);
    let b = flag(h.post_convert, 2);
    let c = flag(h.post_render, 4);
    let d = flag(h.post_build, 8);
    let m = h.mask_spec();
    assert(m == a + b + c + d);
    assert((a == 0 || a == 1) && (b == 0 || b == 2) && (c == 0 || c == 4) && (d == 0 || d == 8));
    assert(m < 16 && (m & 1u32 != 0) == (a == 1) && (m & 2u32 != 0) == (b == 2) && (m & 4u32 != 0)
        == (c == 4) && (m & 8u32 != 0) == (d == 8)) by (bit_vector)
        requires
            (a == 0 || a == 1) && (b == 0 || b == 2) && (c == 0 || c == 4) && (d == 0 || d == 8),
            m == a + b + c + d,
    ;
}

/// Number of bits set in `m` (`u32::count_ones`).
pub open spec fn ones(m: u32) -> nat
    decreases m,
{
    if m == 0 {
        0
    } else {
        (m % 2) as nat + ones(m / 2)
    }
}

/// The declared hooks and the bitmask agree: as many hooks are declared as
/// bits are set in the mask, and each hook is declared exactly when its
/// bit is set.
pub proof fn lemma_hooks_match_mask(h: HookConfig)
    ensures
        h.declared_spec().len() == ones(h.mask_spec()),
        h.declared_spec().contains("pre_build"@) <==> (h.mask_spec() & HOOK_PRE_BUILD != 0),
        h.declared_spec().contains("post_convert"@) <==> (h.mask_spec() & HOOK_POST_CONVERT != 0),
        h.declared_spec().contains("post_render"@) <==> (h.mask_spec() & HOOK_POST_RENDER != 0),
        h.declared_spec().contains("post_build"@) <==> (h.mask_spec() & HOOK_POST_BUILD != 0),
{
    lemma_mask_bits(h);
    reveal_strlit("pre_build");
    reveal_strlit("post_convert");
    reveal_strlit("post_render");
    reveal_strlit("post_build");
    let a = flag(h.pre_build, 1);
    let b = flag(h.post_convert, 2);
    let c = flag(h.post_render, 4);
    let d = flag(h.post_build, 8);
    let m = h.mask_spec();
    assert(m == a + b + c + d);
    assert(m / 16 == 0);
    assert(ones(m) == (m % 2) as nat + ((m / 2) % 2) as nat + ((m / 4) % 2) as nat + ((m / 8)
        % 2) as nat) by {
        reveal_with_fuel(ones, 5);
        assert(m / 2 / 2 == m / 4);
        assert(m / 4 / 2 == m / 8);
        assert(m / 8 / 2 == m / 16);
    }
    let p: Seq<Seq<char>> = if h.pre_build {
        seq!["pre_build"@]
    } else {
        seq![]
    };
    let q: Seq<Seq<char>> = if h.post_convert {
        seq!["post_convert"@]
    } else {
        seq![]
    };
    let r: Seq<Seq<char>> = if h.post_render {
        seq!["post_render"@]
    } else {
        seq![]
    };
    let s: Seq<Seq<char>> = if h.post_build {
        seq!["post_build"@]
    } else {
        seq![]
    };
    let all = h.declared_spec();
    assert(all == p + q + r + s);
    assert(all.len() == p.len() + q.len() + r.len() + s.len());
    assert forall|n: Seq<char>| #[trigger] all.contains(n) <==> (p.contains(n) || q.contains(n)
        || r.contains(n) || s.contains(n)) by {
        if all.contains(n) {
            let k = choose|k: int| 0 <= k < all.len() && all[k] == n;
            if k < p.len() {
                assert(p[k] == n);
            } else if k < p.len() + q.len() {
                assert(q[k - p.len()] == n);
            } else if k < p.len() + q.len() + r.len() {
                assert(r[k - p.len() - q.len()] == n);
            } else {
                assert(s[k - p.len() - q.len() - r.len()] == n);
            }
        }
        if p.contains(n) {
            assert(all[0] == n);
        }
        if q.contains(n) {
            assert(all[p.len() as int] == n);
        }
        if r.contains(n) {
            assert(all[(p.len() + q.len()) as int] == n);
        }
        if s.contains(n) {
            assert(all[(p.len() + q.len() + r.len()) as int] == n);
        }
    }
    assert(p.contains("pre_build"@) == h.pre_build) by {
        if h.pre_build {
            assert(p[0] == "pre_build"@);
        }
    }
    assert(q.contains("post_convert"@) == h.post_convert) by {
        if h.post_convert {
            assert(q[0] == "post_convert"@);
        }
    }
    assert(r.contains("post_render"@) == h.post_render) by {
        if h.post_render {
            assert(r[0] == "post_render"@);
        }
    }
    assert(s.contains("post_build"@) == h.post_build) by {
        if h.post_build {
            assert(s[0] == "post_build"@);
        }
    }
    assert("pre_build"@.len() == 9 && "post_convert"@.len() == 12 && "post_render"@.len() == 11
        && "post_build"@.len() == 10);
    assert forall|n: Seq<char>| #![auto] p.contains(n) ==> n == "pre_build"@ by {
        if p.contains(n) {
            let k = choose|k: int| 0 <= k < p.len() && p[k] == n;
        }
    }
    assert forall|n: Seq<char>| #![auto] q.contains(n) ==> n == "post_convert"@ by {
        if q.contains(n) {
            let k = choose|k: int| 0 <= k < q.len() && q[k] == n;
        }
    }
    assert forall|n: Seq<char>| #![auto] r.contains(n) ==> n == "post_render"@ by {
        if r.contains(n) {
            let k = choose|k: int| 0 <= k < r.len() && r[k] == n;
        }
    }
    assert forall|n: Seq<char>| #![auto] s.contains(n) ==> n == "post_build"@ by {
        if s.contains(n) {
            let k = choose|k: int| 0 <= k < s.len() && s[k] == n;
        }
    }
    assert(all.contains("pre_build"@) == h.pre_build);
    assert(all.contains("post_convert"@) == h.post_convert);
    assert(all.contains("post_render"@) == h.post_render);
    assert(all.contains("post_build"@) == h.post_build);
}

// ---------------------------------------------------------------------
// Compatibility
// ---------------------------------------------------------------------

pub open spec fn abi_error(name: Seq<char>, abi: u32) -> Seq<char> {
    "ABI mismatch: plugin '"@ + name + "' requires abi="@ + dec_chars(abi as nat)
        + ", core provides abi="@ + dec_chars(CORE_ABI_VERSION as nat)
}

/// Whether `req` parses as a semver version requirement
/// (`semver::VersionReq::parse`).
pub uninterp spec fn semver_req_ok(req: Seq<char>) -> bool;

/// The parse error of an invalid requirement, as displayed.
pub uninterp spec fn semver_req_error(req: Seq<char>) -> Seq<char>;

/// Whether `v` parses as a semver version (`semver::Version::parse`).
pub uninterp spec fn semver_version_ok(v: Seq<char>) -> bool;

/// The parse error of an invalid version, as displayed.
pub uninterp spec fn semver_version_error(v: Seq<char>) -> Seq<char>;

/// Whether version `v` satisfies requirement `req`
/// (`semver::VersionReq::matches`).
pub uninterp spec fn semver_matches(req: Seq<char>, v: Seq<char>) -> bool;

/// Parses `req` with `semver::VersionReq::parse`; claimed: `None` exactly
/// when it parses, else the displayed parse error, which depends on `req`
/// alone.
#[verifier::external_body]
fn req_parse_error(req: &str) -> (r: Option<String>)
    ensures
        r is None <==> semver_req_ok(req@),
        r matches Some(e) ==> e@ == semver_req_error(req@),
{
    match semver::VersionReq::parse(req) {
        Ok(_) => None,
        Err(e) => Some(e.to_string()),
    }
}

/// Parses `v` with `semver::Version::parse`; claimed as for
/// [`req_parse_error`].
#[verifier::external_body]
fn version_parse_error(v: &str) -> (r: Option<String>)
    ensures
        r is None <==> semver_version_ok(v@),
        r matches Some(e) ==> e@ == semver_version_error(v@),
{
    match semver::Version::parse(v) {
        Ok(_) => None,
        Err(e) => Some(e.to_string()),
    }
}

/// `semver::VersionReq::matches` on a parsed requirement and version;
/// claimed: the answer depends on the two strings alone.
#[verifier::external_body]
fn req_matches(req: &str, v: &str) -> (r: bool)
    requires
        semver_req_ok(req@),
        semver_version_ok(v@),
    ensures
        r == semver_matches(req@, v@),
{
    match (semver::VersionReq::parse(req), semver::Version::parse(v)) {
        (Ok(r), Ok(ver)) => r.matches(&ver),
        _ => false,
    }
}

/// The outcome of checking requirement `req` of plugin `name` against
/// the core version.
pub open spec fn semver_check_spec(name: Seq<char>, req: Seq<char>) -> Result<(), Seq<char>> {
    if !semver_req_ok(req) {
        Err("Invalid semver requirement '"@ + req + "': "@ + semver_req_error(req))
    } else if !semver_version_ok(core_version()) {
        Err("Invalid core version: "@ + semver_version_error(core_version()))
    } else if !semver_matches(req, core_version()) {
        Err("Version mismatch: plugin '"@ + name + "' requires norgolith "@ + req
            + ", installed is "@ + core_version())
    } else {
        Ok(())
    }
}

pub open spec fn unit_result_view(r: Result<(), String>) -> Result<(), Seq<char>> {
    match r {
        Ok(()) => Ok(()),
        Err(e) => Err(e@),
    }
}

impl PluginManifest {
    /// Checks that the plugin was built against this core's ABI.
    pub fn validate_abi(&self) -> (r: Result<(), String>)
        ensures
            r is Ok <==> self.plugin.abi == CORE_ABI_VERSION,
            r matches Err(e) ==> e@ == abi_error(self.plugin.name@, self.plugin.abi),
    {
        if self.plugin.abi != CORE_ABI_VERSION {
            let mut m = String::from_str("ABI mismatch: plugin '");
            m.append(self.plugin.name.as_str());
            m.append("' requires abi=");
            let a = usize_to_string(self.plugin.abi as usize);
            m.append(a.as_str());
            m.append(", core provides abi=");
            let c = usize_to_string(CORE_ABI_VERSION as usize);
            m.append(c.as_str());
            return Err(m);
        }
        Ok(())
    }

    /// Checks the plugin's norgolith requirement against the core version.
    pub fn validate_semver(&self) -> (r: Result<(), String>)
        ensures
            unit_result_view(r) == semver_check_spec(self.plugin.name@, self.plugin.norgolith@),
    {
        let req = self.plugin.norgolith.as_str();
        match req_parse_error(req) {
            Some(e) => {
                let mut m = String::from_str("Invalid semver requirement '");
                m.append(req);
                m.append("': ");
                m.append(e.as_str());
                return Err(m);
            },
            None => {},
        }
        let current = core_version_str();
        match version_parse_error(current) {
            Some(e) => {
                let mut m = String::from_str("Invalid core version: ");
                m.append(e.as_str());
                return Err(m);
            },
            None => {},
        }
        if !req_matches(req, current) {
            let mut m = String::from_str("Version mismatch: plugin '");
            m.append(self.plugin.name.as_str());
            m.append("' requires norgolith ");
            m.append(req);
            m.append(", installed is ");
            m.append(current);
            return Err(m);
        }
        Ok(())
    }
}

// ---------------------------------------------------------------------
// Hook replies
// ---------------------------------------------------------------------

/// Whether `json` parses as JSON (`serde_json::from_str`).
pub uninterp spec fn json_parses(json: Seq<char>) -> bool;

/// The parse error of invalid JSON, as displayed.
pub uninterp spec fn json_parse_error(json: Seq<char>) -> Seq<char>;

/// The string under `key` of the parsed JSON object, if there is one and it
/// is a string.
pub uninterp spec fn json_str_at(json: Seq<char>, key: Seq<char>) -> Option<Seq<char>>;

pub open spec fn opt_view(s: Option<String>) -> Option<Seq<char>> {
    match s {
        Some(x) => Some(x@),
        None => None,
    }
}

/// Parses `json` with `serde_json::from_str` into a `serde_json::Value`
/// and reads the string under `key` (`Value::get`, `Value::as_str`).
/// Claimed: `Err` exactly when the text does not parse, with the displayed
/// error; otherwise the field, both depending on the two strings alone.
#[verifier::external_body]
fn json_string_field(json: &str, key: &str) -> (r: Result<Option<String>, String>)
    ensures
        r is Ok <==> json_parses(json@),
        r matches Err(e) ==> e@ == json_parse_error(json@),
        r matches Ok(v) ==> opt_view(v) == json_str_at(json@, key@),
{
    match serde_json::from_str::<serde_json::Value>(json) {
        Ok(v) => match v.get(key) {
            Some(x) => match x.as_str() {
                Some(s) => Ok(Some(s.to_string())),
                None => Ok(None),
            },
            None => Ok(None),
        },
        Err(e) => Err(e.to_string()),
    }
}

/// A reply's error, if it reports one: `status` is `"error"`, with its
/// `message` (or `unknown error`).
pub open spec fn reply_error(plugin: Seq<char>, json: Seq<char>) -> Option<Seq<char>> {
    if !json_parses(json) {
        Some("Invalid response from plugin '"@ + plugin + "': "@ + json_parse_error(json))
    } else if json_str_at(json, "status"@) == Some("error"@) {
        Some("plugin '"@ + plugin + "' returned error: "@ + match json_str_at(json, "message"@) {
            Some(m) => m,
            None => "unknown error"@,
        })
    } else {
        None
    }
}

/// What a parsed reply amounts to, given its `status`, `message` and
/// `html` strings (each where the reply holds a string under that key): an
/// error when `status` is `"error"`, naming the plugin and the `message`
/// (or `unknown error`); else the `html`, if any.
pub open spec fn reply_outcome(
    plugin: Seq<char>,
    status: Option<Seq<char>>,
    message: Option<Seq<char>>,
    html: Option<Seq<char>>,
) -> Result<Option<Seq<char>>, Seq<char>> {
    if status == Some("error"@) {
        Err("plugin '"@ + plugin + "' returned error: "@ + match message {
            Some(m) => m,
            None => "unknown error"@,
        })
    } else {
        Ok(html)
    }
}

pub open spec fn reply_view(r: Result<Option<String>, String>) -> Result<Option<Seq<char>>, Seq<char>> {
    match r {
        Ok(h) => Ok(opt_view(h)),
        Err(e) => Err(e@),
    }
}

/// Decides a parsed reply (see [`reply_outcome`]).
pub fn hook_reply(
    plugin_name: &str,
    status: Option<String>,
    message: Option<String>,
    html: Option<String>,
) -> (r: Result<Option<String>, String>)
    ensures
        reply_view(r) == reply_outcome(plugin_name@, opt_view(status), opt_view(message), opt_view(html)),
{
    let is_error = match &status {
        Some(s) => str_equal(s.as_str(), "error"),
        None => false,
    };
    if is_error {
        let msg = match message {
            Some(m) => m,
            None => String::from_str("unknown error"),
        };
        let mut m = String::from_str("plugin '");
        m.append(plugin_name);
        m.append("' returned error: ");
        m.append(msg.as_str());
        Err(m)
    } else {
        Ok(html)
    }
}

/// The error of a reply that does not parse.
fn invalid_reply(plugin_name: &str, e: &str) -> (r: String)
    ensures
        r@ == "Invalid response from plugin '"@ + plugin_name@ + "': "@ + e@,
{
    let mut m = String::from_str("Invalid response from plugin '");
    m.append(plugin_name);
    m.append("': ");
    m.append(e);
    m
}

/// Reads a hook's reply: an error when it does not parse or reports one,
/// else the returned `html` string, if any.
pub fn parse_hook_response(plugin_name: &str, json: &str) -> (r: Result<Option<String>, String>)
    ensures
        match reply_error(plugin_name@, json@) {
            Some(e) => r matches Err(x) && x@ == e,
            None => r matches Ok(h) && opt_view(h) == json_str_at(json@, "html"@),
        },
{
    match json_string_field(json, "status") {
        Err(e) => Err(invalid_reply(plugin_name, e.as_str())),
        Ok(status) => {
            let message = match json_string_field(json, "message") {
                Ok(m) => m,
                Err(_) => None,
            };
            let html = match json_string_field(json, "html") {
                Ok(h) => h,
                Err(_) => None,
            };
            hook_reply(plugin_name, status, message, html)
        },
    }
}

/// Reads a status-only reply: an error when it does not parse or reports
/// one.
pub fn parse_status_response(plugin_name: &str, json: &str) -> (r: Result<(), String>)
    ensures
        match reply_error(plugin_name@, json@) {
            Some(e) => r matches Err(x) && x@ == e,
            None => r is Ok,
        },
{
    match json_string_field(json, "status") {
        Err(e) => Err(invalid_reply(plugin_name, e.as_str())),
        Ok(status) => {
            let message = match json_string_field(json, "message") {
                Ok(m) => m,
                Err(_) => None,
            };
            match hook_reply(plugin_name, status, message, None) {
                Ok(_) => Ok(()),
                Err(e) => Err(e),
            }
        },
    }
}

// ---------------------------------------------------------------------
// Plugin commands
// ---------------------------------------------------------------------

/// Plugin management commands.
pub enum PluginCommands {
    /// List installed plugins and their status.
    List,
    /// Scaffold a new plugin project.
    New { name: String },
    /// Build and install a plugin.
    Install { source: String, git: bool, tag: Option<String>, branch: Option<String> },
    /// Remove an installed plugin.
    Uninstall { name: String },
}

/// Where a plugin is installed from.
pub enum InstallSource {
    /// A git repository URL.
    Git { url: String },
    /// A local directory.
    Local { path: String },
    /// A crates.io package, at a version or the latest.
    CratesIo { name: String, version: Option<String> },
}

/// A plugin name is valid when it is not empty and holds no path
/// separator, `..` or `:`.
pub open spec fn plugin_name_ok(name: Seq<char>) -> bool {
    name.len() > 0 && !name.contains('/') && !name.contains('\\') && !crate::text::contains_seq(name, ".."@)
        && !name.contains(':')
}

/// Checks a plugin name before it is used as a directory name.
pub fn validate_plugin_name(name: &str) -> (r: Result<(), String>)
    ensures
        r is Ok <==> plugin_name_ok(name@),
        r matches Err(e) ==> e@ == if name@.len() == 0 {
            "Plugin name cannot be empty"@
        } else {
            "Invalid plugin name: '"@ + name@ + "' (no path separators or '..' allowed)"@
        },
{
    let cs = crate::text::chars_of(name);
    if cs.len() == 0 {
        return Err(String::from_str("Plugin name cannot be empty"));
    }
    let dots = crate::text::chars_of("..");
    let bad = find_char(&cs, '/', 0).is_some() || find_char(&cs, '\\', 0).is_some()
        || crate::text::find_chars(&cs, &dots, 0).is_some() || find_char(&cs, ':', 0).is_some();
    proof {
        lemma_contains_index(cs@, '/');
        lemma_contains_index(cs@, '\\');
        lemma_contains_index(cs@, ':');
    }
    if bad {
        let mut m = String::from_str("Invalid plugin name: '");
        m.append(name);
        m.append("' (no path separators or '..' allowed)");
        return Err(m);
    }
    Ok(())
}

proof fn lemma_contains_index(s: Seq<char>, c: char)
    ensures
        s.contains(c) <==> index_of_from(s, c, 0) is Some,
{
    lemma_index_of_from_complete(s, c, 0);
    crate::text::lemma_index_of_from(s, c, 0);
}

proof fn lemma_index_of_from_complete(s: Seq<char>, c: char, i: int)
    requires
        0 <= i,
    ensures
        (exists|k: int| i <= k < s.len() && s[k] == c) ==> index_of_from(s, c, i) is Some,
    decreases s.len() - i,
{
    if 0 <= i < s.len() && s[i] != c {
        lemma_index_of_from_complete(s, c, i + 1);
        if exists|k: int| i <= k < s.len() && s[k] == c {
            let k = choose|k: int| i <= k < s.len() && s[k] == c;
            assert(k != i);
        }
    }
}

/// Mathematical form of [`InstallSource`].
pub enum SourceV {
    Git(Seq<char>),
    Local(Seq<char>),
    CratesIo(Seq<char>, Option<Seq<char>>),
}

/// Where `source` is installed from: a git URL when `git` is set; a local
/// directory when it starts with `.` or `/`; otherwise a crates.io
/// package, `name@version` naming a version.
pub open spec fn install_source_spec(source: Seq<char>, git: bool) -> SourceV {
    if git {
        SourceV::Git(source)
    } else if source.len() > 0 && (source[0] == '.' || source[0] == '/') {
        SourceV::Local(source)
    } else {
        match index_of_from(source, '@', 0) {
            Some(k) => SourceV::CratesIo(source.take(k), Some(source.skip(k + 1))),
            None => SourceV::CratesIo(source, None),
        }
    }
}

pub open spec fn install_source_view(s: InstallSource) -> SourceV {
    match s {
        InstallSource::Git { url } => SourceV::Git(url@),
        InstallSource::Local { path } => SourceV::Local(path@),
        InstallSource::CratesIo { name, version } => SourceV::CratesIo(name@, opt_view(version)),
    }
}

/// Decides where a plugin is installed from (see [`install_source_spec`]).
pub fn install_source(source: &str, git: bool) -> (r: InstallSource)
    ensures
        install_source_view(r) == install_source_spec(source@, git),
{
    if git {
        return InstallSource::Git { url: String::from_str(source) };
    }
    let cs = crate::text::chars_of(source);
    if cs.len() > 0 && (cs[0] == '.' || cs[0] == '/') {
        return InstallSource::Local { path: String::from_str(source) };
    }
    match find_char(&cs, '@', 0) {
        Some(k) => {
            proof {
                crate::text::lemma_index_of_from(cs@, '@', 0);
            }
            let name = crate::text::string_from_chars(&cs, 0, k);
            let version = crate::text::string_from_chars(&cs, k + 1, cs.len());
            assert(name@ =~= source@.take(k as int));
            assert(version@ =~= source@.skip(k + 1));
            InstallSource::CratesIo { name, version: Some(version) }
        },
        None => InstallSource::CratesIo { name: String::from_str(source), version: None },
    }
}

// ---------------------------------------------------------------------
// Listing and scaffolding
// ---------------------------------------------------------------------

/// How a plugin's filesystem access is listed.
pub open spec fn filesystem_label_spec(fs: FilesystemAccess) -> Seq<char> {
    match fs {
        FilesystemAccess::NoAccess => "none"@,
        FilesystemAccess::Read => "read"@,
        FilesystemAccess::Write => "write"@,
        FilesystemAccess::ReadWrite => "read-write"@,
    }
}

pub fn filesystem_label(fs: FilesystemAccess) -> (r: &'static str)
    ensures
        r@ == filesystem_label_spec(fs),
{
    match fs {
        FilesystemAccess::NoAccess => "none",
        FilesystemAccess::Read => "read",
        FilesystemAccess::Write => "write",
        FilesystemAccess::ReadWrite => "read-write",
    }
}

/// A hook timeout as listed: whole seconds followed by `s`.
pub fn timeout_label(timeout_ms: u64) -> (r: String)
    ensures
        r@ == dec_chars((timeout_ms / 1000) as nat) + "s"@,
{
    let mut s = usize_to_string_u64(timeout_ms / 1000);
    s.append("s");
    s
}

fn usize_to_string_u64(n: u64) -> (r: String)
    ensures
        r@ == dec_chars(n as nat),
{
    let mut s = String::new();
    crate::text::push_dec(&mut s, n);
    assert(s@ =~= dec_chars(n as nat));
    s
}

/// The `plugin.toml` of a new plugin: its name, a requirement on at least
/// the running core version, the core ABI, no hooks, no filesystem or
/// network access, the default timeout and priority.
pub open spec fn scaffold_manifest_spec(name: Seq<char>, version: Seq<char>) -> Seq<char> {
    "[plugin]\nname = \""@ + name + "\"\nnorgolith = \">="@ + version + "\"\nabi = "@
        + dec_chars(CORE_ABI_VERSION as nat)
        + "\n\n[hooks]\npre_build = false\npost_convert = false\npost_render = false\npost_build = false\n\n[capabilities]\nfilesystem = \"none\"\nnetwork = false\n\ntimeout_ms = 10000\npriority = 100\n"@
}

pub fn scaffold_manifest(name: &str, version: &str) -> (r: String)
    ensures
        r@ == scaffold_manifest_spec(name@, version@),
{
    let mut s = crate::text::concat3("[plugin]\nname = \"", name, "\"\nnorgolith = \">=");
    s.append(version);
    s.append("\"\nabi = ");
    let abi = usize_to_string(CORE_ABI_VERSION as usize);
    s.append(abi.as_str());
    s.append(
        "\n\n[hooks]\npre_build = false\npost_convert = false\npost_render = false\npost_build = false\n\n[capabilities]\nfilesystem = \"none\"\nnetwork = false\n\ntimeout_ms = 10000\npriority = 100\n",
    );
    s
}

/// The `Cargo.toml` of a new plugin: a `cdylib` crate on the plugin SDK.
pub open spec fn scaffold_cargo_spec(name: Seq<char>) -> Seq<char> {
    "[package]\nname = \""@ + name
        + "\"\nversion = \"0.1.0\"\nedition = \"2021\"\n\n[lib]\ncrate-type = [\"cdylib\"]\n\n[dependencies]\nnorgolith-plugin-sdk = \"0.1\"\n"@
}

pub fn scaffold_cargo(name: &str) -> (r: String)
    ensures
        r@ == scaffold_cargo_spec(name@),
{
    crate::text::concat3(
        "[package]\nname = \"",
        name,
        "\"\nversion = \"0.1.0\"\nedition = \"2021\"\n\n[lib]\ncrate-type = [\"cdylib\"]\n\n[dependencies]\nnorgolith-plugin-sdk = \"0.1\"\n",
    )
}

/// The `src/lib.rs` of a new plugin: registration under its name with a
/// post-render hook that returns the page unchanged.
pub open spec fn scaffold_lib_spec(name: Seq<char>) -> Seq<char> {
    "use norgolith_plugin_sdk::*;\n\nregister_plugin!(\""@ + name
        + "\")\n    .on_post_render(|ctx| {\n        // Access per-plugin config from norgolith.toml\n        // if let Some(theme) = ctx.config.as_ref().and_then(|c| c.get(\"theme\")) {\n        //     plugin_log!(\"info\", \"config theme: {theme}\");\n        // }\n        Ok(Some(ctx.html))\n    })\n    .register();\n"@
}

pub fn scaffold_lib(name: &str) -> (r: String)
    ensures
        r@ == scaffold_lib_spec(name@),
{
    crate::text::concat3(
        "use norgolith_plugin_sdk::*;\n\nregister_plugin!(\"",
        name,
        "\")\n    .on_post_render(|ctx| {\n        // Access per-plugin config from norgolith.toml\n        // if let Some(theme) = ctx.config.as_ref().and_then(|c| c.get(\"theme\")) {\n        //     plugin_log!(\"info\", \"config theme: {theme}\");\n        // }\n        Ok(Some(ctx.html))\n    })\n    .register();\n",
    )
}

} // verus!
