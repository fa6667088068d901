//! Loader configuration: resource limits and resolution policy.
//!
//! Four presets cover common use cases: `moderate` (the default), `strict`
//! for untrusted input, `trusted` for local files, and `unchecked`.
use vstd::prelude::*;

use crate::text::{push_decimal, push_str, push_string, str_to_string, decimal};

verus! {

/// `std::path::PathBuf`, carried through configuration unread.
#[verifier::external_type_specification]
#[verifier::external_body]
pub struct ExPathBuf(std::path::PathBuf);

/// `Duration::clone` copies the duration.
pub assume_specification[ <core::time::Duration as Clone>::clone ](
    d: &core::time::Duration,
) -> (r: core::time::Duration)
    ensures
        r == *d,
;

/// `PathBuf::clone` copies the path.
pub assume_specification[ <std::path::PathBuf as Clone>::clone ](p: &std::path::PathBuf) -> (r:
    std::path::PathBuf)
    ensures
        r == *p,
;

/// What `Duration::from_secs` returns for the given number of seconds.
pub uninterp spec fn duration_from_secs(secs: u64) -> core::time::Duration;

/// Calls `Duration::from_secs`; the result is named by `duration_from_secs`.
#[verifier::external_body]
fn make_duration_secs(secs: u64) -> (d: core::time::Duration)
    ensures
        d == duration_from_secs(secs),
{
    core::time::Duration::from_secs(secs)
}

/// Top-level loader configuration.
#[derive(Debug, Clone, PartialEq, Eq)]
pub struct LoaderConfig {
    /// Resource limits applied during loading.
    pub limits: ResourceLimits,
    /// Policy for resolving file inclusion (`!incl`-style tags) and `$ref` references.
    pub resolution: ResolutionPolicy,
}

/// Caps on resource consumption during YAML loading; `None` means unlimited.
#[derive(Debug, Clone, Copy, PartialEq, Eq)]
pub struct ResourceLimits {
    /// Maximum total input size in bytes.
    pub max_input_bytes: Option<usize>,
    /// Maximum size of a single scalar value in bytes.
    pub max_scalar_bytes: Option<usize>,
    /// Maximum size of a mapping key in bytes.
    pub max_key_bytes: Option<usize>,
    /// Maximum nesting depth (mappings, sequences, flow collections).
    pub max_depth: Option<usize>,
    /// Maximum number of alias expansions.
    pub max_alias_expansions: Option<usize>,
    /// Maximum number of anchors in a document.
    pub max_anchor_count: Option<usize>,
    /// Maximum depth when recursively resolving merge keys.
    pub max_merge_depth: Option<usize>,
}

/// Policy governing file inclusion (`!incl`-style tags) and `$ref` resolution.
#[derive(Debug, Clone, PartialEq, Eq)]
pub struct ResolutionPolicy {
    /// Policy for file inclusion (`!incl`-style tags) directives.
    pub inclusion: IncludePolicy,
    /// Policy for `$ref` references.
    pub refs: RefPolicy,
}

/// Controls how file inclusion (`!incl`-style tags) directives are resolved.
#[derive(Debug, Clone, PartialEq, Eq)]
pub struct IncludePolicy {
    /// Whether file inclusion (`!incl`-style tags) processing is enabled.
    pub enabled: bool,
    /// Root directory for resolving relative include paths.
    pub root: Option<std::path::PathBuf>,
    /// Glob patterns for allowed include paths.
    pub allow: Vec<String>,
    /// Glob patterns for denied include paths (checked before allow).
    pub deny: Vec<String>,
    /// Maximum include recursion depth.
    pub max_depth: usize,
    /// Maximum total bytes read across all includes.
    pub max_total_bytes: Option<usize>,
    /// Whether to follow symbolic links when resolving includes.
    pub follow_symlinks: bool,
}

/// Controls how `$ref` references are resolved.
#[derive(Debug, Clone, PartialEq, Eq)]
pub struct RefPolicy {
    /// Whether `$ref` processing is enabled.
    pub enabled: bool,
    /// Allowed URL schemes.
    pub allow_schemes: Vec<String>,
    /// Allowed hostnames for remote refs.
    pub allow_hosts: Vec<String>,
    /// Timeout for fetching remote refs.
    pub timeout: core::time::Duration,
}

/// The limits given field by field, in declaration order.
pub open spec fn limits_are(
    l: ResourceLimits,
    input: Option<usize>,
    scalar: Option<usize>,
    key: Option<usize>,
    depth: Option<usize>,
    alias: Option<usize>,
    anchor: Option<usize>,
    merge: Option<usize>,
) -> bool {
    &&& l.max_input_bytes == input
    &&& l.max_scalar_bytes == scalar
    &&& l.max_key_bytes == key
    &&& l.max_depth == depth
    &&& l.max_alias_expansions == alias
    &&& l.max_anchor_count == anchor
    &&& l.max_merge_depth == merge
}

/// Resolution with both file inclusion (`!incl`-style tags) and `$ref` off and empty lists.
pub open spec fn is_disabled_policy(p: ResolutionPolicy) -> bool {
    &&& !p.inclusion.enabled
    &&& p.inclusion.root is None
    &&& p.inclusion.allow@.len() == 0
    &&& p.inclusion.deny@.len() == 0
    &&& p.inclusion.max_depth == 10
    &&& p.inclusion.max_total_bytes is None
    &&& !p.inclusion.follow_symlinks
    &&& !p.refs.enabled
    &&& p.refs.allow_schemes@.len() == 0
    &&& p.refs.allow_hosts@.len() == 0
    &&& p.refs.timeout == duration_from_secs(30)
}

/// The moderate preset's limits.
pub open spec fn is_moderate(c: LoaderConfig) -> bool {
    &&& limits_are(
        c.limits,
        Some(268435456usize),
        Some(67108864usize),
        Some(1048576usize),
        Some(256),
        Some(10_000),
        Some(10_000),
        Some(64),
    )
    &&& is_disabled_policy(c.resolution)
}

/// The strict preset's limits.
pub open spec fn is_strict(c: LoaderConfig) -> bool {
    &&& limits_are(
        c.limits,
        Some(10485760usize),
        Some(1048576usize),
        Some(4096usize),
        Some(64),
        Some(100),
        Some(100),
        Some(10),
    )
    &&& is_disabled_policy(c.resolution)
}

/// The trusted preset's limits.
pub open spec fn is_trusted(c: LoaderConfig) -> bool {
    &&& limits_are(c.limits, None, None, None, Some(1024usize), Some(1_000_000), None, Some(256))
    &&& is_disabled_policy(c.resolution)
}

/// The unchecked preset: no limits.
pub open spec fn is_unchecked(c: LoaderConfig) -> bool {
    &&& limits_are(c.limits, None, None, None, None, None, None, None)
    &&& is_disabled_policy(c.resolution)
}

/// Limit `a` is at least as tight as `b`: `b` is unlimited, or both are
/// set and `a` is no larger.
pub open spec fn limit_le(a: Option<usize>, b: Option<usize>) -> bool {
    b is None || (a is Some && b is Some && a->0 <= b->0)
}

/// Every limit of `a` is at least as tight as that of `b`.
pub open spec fn limits_le(a: ResourceLimits, b: ResourceLimits) -> bool {
    &&& limit_le(a.max_input_bytes, b.max_input_bytes)
    &&& limit_le(a.max_scalar_bytes, b.max_scalar_bytes)
    &&& limit_le(a.max_key_bytes, b.max_key_bytes)
    &&& limit_le(a.max_depth, b.max_depth)
    &&& limit_le(a.max_alias_expansions, b.max_alias_expansions)
    &&& limit_le(a.max_anchor_count, b.max_anchor_count)
    &&& limit_le(a.max_merge_depth, b.max_merge_depth)
}

/// The presets go from tightest to loosest, limit by limit: strict,
/// moderate, trusted, unchecked.
pub proof fn lemma_presets_ordered(s: LoaderConfig, m: LoaderConfig, t: LoaderConfig, u: LoaderConfig)
    requires
        is_strict(s),
        is_moderate(m),
        is_trusted(t),
        is_unchecked(u),
    ensures
        limits_le(s.limits, m.limits),
        limits_le(m.limits, t.limits),
        limits_le(t.limits, u.limits),
{
}

/// A value that passes a limit check passes it under any limit that is no
/// tighter, with the same check.
pub proof fn lemma_check_monotone(value: usize, a: Option<usize>, b: Option<usize>, name: Seq<char>)
    requires
        limit_le(a, b),
        limit_outcome(value, a, name) is Ok,
    ensures
        limit_outcome(value, b, name) is Ok,
{
}

impl Default for LoaderConfig {
    fn default() -> (r: LoaderConfig)
        ensures
            is_moderate(r),
    {
        Self::moderate()
    }
}

impl LoaderConfig {
    /// Balanced limits suitable for most workloads.
    pub fn moderate() -> (r: Self)
        ensures
            is_moderate(r),
    {
        Self {
            limits: ResourceLimits {
                max_input_bytes: Some(268435456usize),
                max_scalar_bytes: Some(67108864usize),
                max_key_bytes: Some(1048576usize),
                max_depth: Some(256),
                max_alias_expansions: Some(10_000),
                max_anchor_count: Some(10_000),
                max_merge_depth: Some(64),
            },
            resolution: ResolutionPolicy::disabled(),
        }
    }

    /// Tight limits for untrusted input.
    pub fn strict() -> (r: Self)
        ensures
            is_strict(r),
    {
        Self {
            limits: ResourceLimits {
                max_input_bytes: Some(10485760usize),
                max_scalar_bytes: Some(1048576usize),
                max_key_bytes: Some(4096usize),
                max_depth: Some(64),
                max_alias_expansions: Some(100),
                max_anchor_count: Some(100),
                max_merge_depth: Some(10),
            },
            resolution: ResolutionPolicy::disabled(),
        }
    }

    /// Generous limits for local files you control.
    pub fn trusted() -> (r: Self)
        ensures
            is_trusted(r),
    {
        Self {
            limits: ResourceLimits {
                max_input_bytes: None,
                max_scalar_bytes: None,
                max_key_bytes: None,
                max_depth: Some(1024),
                max_alias_expansions: Some(1_000_000),
                max_anchor_count: None,
                max_merge_depth: Some(256),
            },
            resolution: ResolutionPolicy::disabled(),
        }
    }

    /// No limits at all.
    pub fn unchecked() -> (r: Self)
        ensures
            is_unchecked(r),
    {
        Self { limits: ResourceLimits::none(), resolution: ResolutionPolicy::disabled() }
    }
}

/// The message of a failed limit check: `name value exceeds maximum of max`.
pub open spec fn limit_message(name: Seq<char>, value: nat, max: nat) -> Seq<char> {
    name + seq![' '] + decimal(value) + seq![
        ' ',
        'e',
        'x',
        'c',
        'e',
        'e',
        'd',
        's',
        ' ',
        'm',
        'a',
        'x',
        'i',
        'm',
        'u',
        'm',
        ' ',
        'o',
        'f',
        ' ',
    ] + decimal(max)
}

/// The outcome of checking `value` against `limit`: an error exactly when
/// a limit is set and `value` exceeds it.
pub open spec fn limit_outcome(value: usize, limit: Option<usize>, name: Seq<char>) -> Result<
    (),
    Seq<char>,
> {
    match limit {
        Some(max) => if value > max {
            Err(limit_message(name, value as nat, max as nat))
        } else {
            Ok(())
        },
        None => Ok(()),
    }
}

/// The view of a check's result, with the message as characters.
pub open spec fn result_view(r: Result<(), String>) -> Result<(), Seq<char>> {
    match r {
        Ok(()) => Ok(()),
        Err(m) => Err(m@),
    }
}

/// Shared limit check.
fn check_limit(value: usize, limit: Option<usize>, name: &str) -> (r: Result<(), String>)
    ensures
        result_view(r) == limit_outcome(value, limit, name@),
{
    if let Some(max) = limit {
        if value > max {
            let mut s = str_to_string(name);
            s.push(' ');
            push_decimal(&mut s, value as u64);
            push_str(&mut s, " exceeds maximum of ");
            push_decimal(&mut s, max as u64);
            proof {
                reveal_strlit(" exceeds maximum of ");
            }
            assert(s@ =~= limit_message(name@, value as nat, max as nat));
            return Err(s);
        }
    }
    Ok(())
}

impl ResourceLimits {
    /// No limits — every field is `None`.
    pub fn none() -> (r: Self)
        ensures
            limits_are(r, None, None, None, None, None, None, None),
    {
        Self {
            max_input_bytes: None,
            max_scalar_bytes: None,
            max_key_bytes: None,
            max_depth: None,
            max_alias_expansions: None,
            max_anchor_count: None,
            max_merge_depth: None,
        }
    }

    /// Check whether `depth` is within `max_depth`.
    pub fn check_depth(&self, depth: usize) -> (r: Result<(), String>)
        ensures
            result_view(r) == limit_outcome(depth, self.max_depth, seq!['d', 'e', 'p', 't', 'h']),
    {
        let r = check_limit(depth, self.max_depth, "depth");
        proof {
            reveal_strlit("depth");
            assert("depth"@ =~= seq!['d', 'e', 'p', 't', 'h']);
        }
        r
    }

    /// Check whether `size` is within `max_scalar_bytes`.
    pub fn check_scalar_size(&self, size: usize) -> (r: Result<(), String>)
        ensures
            result_view(r) == limit_outcome(
                size,
                self.max_scalar_bytes,
                seq!['s', 'c', 'a', 'l', 'a', 'r', ' ', 's', 'i', 'z', 'e'],
            ),
    {
        let r = check_limit(size, self.max_scalar_bytes, "scalar size");
        proof {
            reveal_strlit("scalar size");
            assert("scalar size"@ =~= seq!['s', 'c', 'a', 'l', 'a', 'r', ' ', 's', 'i', 'z', 'e']);
        }
        r
    }

    /// Check whether `size` is within `max_key_bytes`.
    pub fn check_key_size(&self, size: usize) -> (r: Result<(), String>)
        ensures
            result_view(r) == limit_outcome(
                size,
                self.max_key_bytes,
                seq!['k', 'e', 'y', ' ', 's', 'i', 'z', 'e'],
            ),
    {
        let r = check_limit(size, self.max_key_bytes, "key size");
        proof {
            reveal_strlit("key size");
            assert("key size"@ =~= seq!['k', 'e', 'y', ' ', 's', 'i', 'z', 'e']);
        }
        r
    }

    /// Check whether `size` is within `max_input_bytes`.
    pub fn check_input_size(&self, size: usize) -> (r: Result<(), String>)
        ensures
            result_view(r) == limit_outcome(
                size,
                self.max_input_bytes,
                seq!['i', 'n', 'p', 'u', 't', ' ', 's', 'i', 'z', 'e'],
            ),
    {
        let r = check_limit(size, self.max_input_bytes, "input size");
        proof {
            reveal_strlit("input size");
            assert("input size"@ =~= seq!['i', 'n', 'p', 'u', 't', ' ', 's', 'i', 'z', 'e']);
        }
        r
    }

    /// Check whether `count` is within `max_anchor_count`.
    pub fn check_anchor_count(&self, count: usize) -> (r: Result<(), String>)
        ensures
            result_view(r) == limit_outcome(count, self.max_anchor_count, seq!['a', 'n', 'c', 'h', 'o', 'r', ' ', 'c', 'o', 'u', 'n', 't']),
    {
        let r = check_limit(count, self.max_anchor_count, "anchor count");
        proof {
            reveal_strlit("anchor count");
            assert("anchor count"@ =~= seq!['a', 'n', 'c', 'h', 'o', 'r', ' ', 'c', 'o', 'u', 'n', 't']);
        }
        r
    }

    /// Check whether `count` is within `max_alias_expansions`.
    pub fn check_alias_expansions(&self, count: usize) -> (r: Result<(), String>)
        ensures
            result_view(r) == limit_outcome(count, self.max_alias_expansions, seq!['a', 'l', 'i', 'a', 's', ' ', 'e', 'x', 'p', 'a', 'n', 's', 'i', 'o', 'n', 's']),
    {
        let r = check_limit(count, self.max_alias_expansions, "alias expansions");
        proof {
            reveal_strlit("alias expansions");
            assert("alias expansions"@ =~= seq!['a', 'l', 'i', 'a', 's', ' ', 'e', 'x', 'p', 'a', 'n', 's', 'i', 'o', 'n', 's']);
        }
        r
    }

    /// Check whether `depth` is within `max_merge_depth`.
    pub fn check_merge_depth(&self, depth: usize) -> (r: Result<(), String>)
        ensures
            result_view(r) == limit_outcome(depth, self.max_merge_depth, seq!['m', 'e', 'r', 'g', 'e', ' ', 'd', 'e', 'p', 't', 'h']),
    {
        let r = check_limit(depth, self.max_merge_depth, "merge depth");
        proof {
            reveal_strlit("merge depth");
            assert("merge depth"@ =~= seq!['m', 'e', 'r', 'g', 'e', ' ', 'd', 'e', 'p', 't', 'h']);
        }
        r
    }
}

impl ResolutionPolicy {
    /// Both file inclusion (`!incl`-style tags) and `$ref` disabled, empty allow/deny lists.
    pub fn disabled() -> (r: Self)
        ensures
            is_disabled_policy(r),
    {
        Self {
            inclusion: IncludePolicy {
                enabled: false,
                root: None,
                allow: Vec::new(),
                deny: Vec::new(),
                max_depth: 10,
                max_total_bytes: None,
                follow_symlinks: false,
            },
            refs: RefPolicy {
                enabled: false,
                allow_schemes: Vec::new(),
                allow_hosts: Vec::new(),
                timeout: make_duration_secs(30),
            },
        }
    }
}

} // verus!
