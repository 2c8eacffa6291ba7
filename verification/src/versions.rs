//! The version model: host versions, plugin versions and the pair of both that
//! an archive carries, each read from the UTF-8 bytes of its text.

use vstd::prelude::*;
use crate::text::{
    ascii_text, chars_of, first_char, is_ascii_bytes, lemma_first_char_is, trim_bounds, trimmed,
};
use vstd::slice::slice_subrange;
use vstd::string::{StrSliceExecFns, StringSliceAdditionalSpecFns};
use vstd::utf8::encode_utf8;

verus! {

/// Why a version text was refused.
#[derive(Debug, Clone, Copy, PartialEq, Eq, Structural)]
pub enum VersionErrorKind {
    /// An archive version without the `-` that separates its two halves.
    ArchiveVersion,
    /// A host version that is not `major.minor.patch` followed by a suffix.
    RudderVersion,
    /// A host version suffix of no recognized form.
    RudderVersionMode,
    /// A plugin version that is not `major.minor` or `major.minor-nightly`.
    PluginVersion,
    /// A numeric component that does not fit in 32 bits.
    NumberTooLarge,
}

/// A refused version text together with the reason.
#[derive(Debug, Clone)]
pub struct VersionError {
    pub kind: VersionErrorKind,
    pub input: String,
}

/// The pre-release stage of a host version.
#[derive(Debug, Clone, Copy, PartialEq, Eq, Structural)]
pub enum RudderVersionMode {
    Alpha { version: u32 },
    Beta { version: u32 },
    Rc { version: u32 },
    Final,
}

/// The version of the host application.
#[derive(Debug, Clone, Copy, PartialEq, Eq, Structural)]
pub struct RudderVersion {
    pub major: u32,
    pub minor: u32,
    pub patch: u32,
    pub mode: RudderVersionMode,
}

/// The version of a plugin; a nightly build precedes the release it previews.
#[derive(Debug, Clone, Copy, PartialEq, Eq, Structural)]
pub struct PluginVersion {
    pub major: u32,
    pub minor: u32,
    pub nightly: bool,
}

/// The version an archive declares: the host it was built for and its own.
#[derive(Debug, Clone, Copy, PartialEq, Eq, Structural)]
pub struct ArchiveVersion {
    pub rudder_version: RudderVersion,
    pub plugin_version: PluginVersion,
}

// ---------------------------------------------------------------------------
// The grammar
// ---------------------------------------------------------------------------

/// `b` is one of the ASCII digits `0` to `9`.
pub open spec fn is_digit(b: u8) -> bool {
    48 <= b <= 57
}

/// `s` is a non-empty run of ASCII digits.
pub open spec fn all_digits(s: Seq<u8>) -> bool {
    s.len() > 0 && forall|i: int| 0 <= i < s.len() ==> is_digit(#[trigger] s[i])
}

/// The number of ASCII digits that `s` begins with.
pub open spec fn digit_run(s: Seq<u8>) -> nat
    decreases s.len(),
{
    if s.len() > 0 && is_digit(s[0]) {
        1 + digit_run(s.drop_first())
    } else {
        0
    }
}

/// The number that a run of ASCII digits denotes in base ten.
pub open spec fn decimal_value(s: Seq<u8>) -> nat
    decreases s.len(),
{
    if s.len() == 0 {
        0
    } else {
        10 * decimal_value(s.drop_last()) + (s.last() - 48) as nat
    }
}

/// The digits that `s` begins with and what follows them; `None` where `s`
/// does not begin with a digit.
pub open spec fn leading_number(s: Seq<u8>) -> Option<(Seq<u8>, Seq<u8>)> {
    let n = digit_run(s) as int;
    if n == 0 {
        None
    } else {
        Some((s.take(n), s.skip(n)))
    }
}

/// What follows `prefix` in `s`; `None` where `s` does not begin with it.
pub open spec fn after_prefix(s: Seq<u8>, prefix: Seq<u8>) -> Option<Seq<u8>> {
    if prefix.len() <= s.len() && s.take(prefix.len() as int) == prefix {
        Some(s.skip(prefix.len() as int))
    } else {
        None
    }
}

/// The text `.`.
pub open spec fn dot() -> Seq<u8> {
    seq![46u8]
}

/// The text `~alpha`.
pub open spec fn tag_alpha() -> Seq<u8> {
    seq![126u8, 97u8, 108u8, 112u8, 104u8, 97u8]
}

/// The text `~beta`.
pub open spec fn tag_beta() -> Seq<u8> {
    seq![126u8, 98u8, 101u8, 116u8, 97u8]
}

/// The text `~rc`.
pub open spec fn tag_rc() -> Seq<u8> {
    seq![126u8, 114u8, 99u8]
}

/// The text `~git`.
pub open spec fn tag_git() -> Seq<u8> {
    seq![126u8, 103u8, 105u8, 116u8]
}

/// The text `-nightly`.
pub open spec fn tag_nightly() -> Seq<u8> {
    seq![45u8, 110u8, 105u8, 103u8, 104u8, 116u8, 108u8, 121u8]
}

/// The digits of a suffix of the form `tag` followed by digits and nothing
/// else; `None` for any other text.
pub open spec fn tagged_digits(s: Seq<u8>, tag: Seq<u8>) -> Option<Seq<u8>> {
    match after_prefix(s, tag) {
        Some(digits) => if all_digits(digits) {
            Some(digits)
        } else {
            None
        },
        None => None,
    }
}

/// The stage that a host version suffix denotes. The empty suffix and
/// `~git<digits>` are final; `~alpha<digits>`, `~beta<digits>` and
/// `~rc<digits>` carry their number; everything else is refused.
pub open spec fn spec_mode(s: Seq<u8>) -> Result<RudderVersionMode, VersionErrorKind> {
    if s.len() == 0 {
        Ok(RudderVersionMode::Final)
    } else if let Some(d) = tagged_digits(s, tag_alpha()) {
        if decimal_value(d) > u32::MAX {
            Err(VersionErrorKind::NumberTooLarge)
        } else {
            Ok(RudderVersionMode::Alpha { version: decimal_value(d) as u32 })
        }
    } else if let Some(d) = tagged_digits(s, tag_beta()) {
        if decimal_value(d) > u32::MAX {
            Err(VersionErrorKind::NumberTooLarge)
        } else {
            Ok(RudderVersionMode::Beta { version: decimal_value(d) as u32 })
        }
    } else if let Some(d) = tagged_digits(s, tag_rc()) {
        if decimal_value(d) > u32::MAX {
            Err(VersionErrorKind::NumberTooLarge)
        } else {
            Ok(RudderVersionMode::Rc { version: decimal_value(d) as u32 })
        }
    } else if tagged_digits(s, tag_git()) is Some {
        Ok(RudderVersionMode::Final)
    } else {
        Err(VersionErrorKind::RudderVersionMode)
    }
}

/// The two numbers of `<digits>.<digits>` at the head of `s`, and the rest.
pub open spec fn dotted_pair(s: Seq<u8>) -> Option<(Seq<u8>, Seq<u8>, Seq<u8>)> {
    match leading_number(s) {
        Some((first, r1)) => match after_prefix(r1, dot()) {
            Some(r2) => match leading_number(r2) {
                Some((second, rest)) => Some((first, second, rest)),
                None => None,
            },
            None => None,
        },
        None => None,
    }
}

/// The three numbers of `<digits>.<digits>.<digits>` at the head of `s`, and
/// the suffix behind them.
pub open spec fn dotted_triple(s: Seq<u8>) -> Option<(Seq<u8>, Seq<u8>, Seq<u8>, Seq<u8>)> {
    match dotted_pair(s) {
        Some((major, minor, r1)) => match after_prefix(r1, dot()) {
            Some(r2) => match leading_number(r2) {
                Some((patch, suffix)) => Some((major, minor, patch, suffix)),
                None => None,
            },
            None => None,
        },
        None => None,
    }
}

/// The host version that the text `s` denotes, or why it denotes none.
pub open spec fn spec_rudder_version(s: Seq<u8>) -> Result<RudderVersion, VersionErrorKind> {
    match dotted_triple(s) {
        None => Err(VersionErrorKind::RudderVersion),
        Some((major, minor, patch, suffix)) => {
            if decimal_value(major) > u32::MAX || decimal_value(minor) > u32::MAX || decimal_value(
                patch,
            ) > u32::MAX {
                Err(VersionErrorKind::NumberTooLarge)
            } else {
                match spec_mode(suffix) {
                    Err(e) => Err(e),
                    Ok(mode) => Ok(
                        RudderVersion {
                            major: decimal_value(major) as u32,
                            minor: decimal_value(minor) as u32,
                            patch: decimal_value(patch) as u32,
                            mode,
                        },
                    ),
                }
            }
        },
    }
}

/// The plugin version that the text `s` denotes, or why it denotes none.
pub open spec fn spec_plugin_version(s: Seq<u8>) -> Result<PluginVersion, VersionErrorKind> {
    match dotted_pair(s) {
        None => Err(VersionErrorKind::PluginVersion),
        Some((major, minor, rest)) => {
            if rest.len() != 0 && rest != tag_nightly() {
                Err(VersionErrorKind::PluginVersion)
            } else if decimal_value(major) > u32::MAX || decimal_value(minor) > u32::MAX {
                Err(VersionErrorKind::NumberTooLarge)
            } else {
                Ok(
                    PluginVersion {
                        major: decimal_value(major) as u32,
                        minor: decimal_value(minor) as u32,
                        nightly: rest.len() != 0,
                    },
                )
            }
        },
    }
}

/// The position of the first `-` in `s`, or the length of `s` if it has none.
pub open spec fn first_dash(s: Seq<u8>) -> nat
    decreases s.len(),
{
    if s.len() == 0 || s[0] == 45 {
        0
    } else {
        1 + first_dash(s.drop_first())
    }
}

/// The archive version that the text `s` denotes: the host version before the
/// first `-` and the plugin version behind it.
pub open spec fn spec_archive_version(s: Seq<u8>) -> Result<ArchiveVersion, VersionErrorKind> {
    let at = first_dash(s) as int;
    if at == s.len() {
        Err(VersionErrorKind::ArchiveVersion)
    } else {
        match spec_rudder_version(s.take(at)) {
            Err(e) => Err(e),
            Ok(rudder_version) => match spec_plugin_version(s.skip(at + 1)) {
                Err(e) => Err(e),
                Ok(plugin_version) => Ok(ArchiveVersion { rudder_version, plugin_version }),
            },
        }
    }
}

// ---------------------------------------------------------------------------
// Lemmas about the grammar
// ---------------------------------------------------------------------------

/// A run of `n` digits that ends at the end of `s` or before a non-digit is
/// the whole digit run of `s`.
pub proof fn lemma_digit_run_is(s: Seq<u8>, n: int)
    requires
        0 <= n <= s.len(),
        forall|i: int| 0 <= i < n ==> is_digit(#[trigger] s[i]),
        n == s.len() || !is_digit(s[n]),
    ensures
        digit_run(s) == n,
    decreases n,
{
    if n > 0 {
        let t = s.drop_first();
        assert forall|i: int| 0 <= i < n - 1 implies is_digit(#[trigger] t[i]) by {
            assert(t[i] == s[i + 1]);
        }
        if n < s.len() {
            assert(t[n - 1] == s[n]);
        }
        lemma_digit_run_is(t, n - 1);
    }
}

/// The digit run of `s` lies inside `s`, holds digits only, and stops at the
/// end of `s` or before a non-digit.
pub proof fn lemma_digit_run_bounds(s: Seq<u8>)
    ensures
        digit_run(s) <= s.len(),
        forall|i: int| 0 <= i < digit_run(s) ==> is_digit(#[trigger] s[i]),
        digit_run(s) == s.len() || !is_digit(s[digit_run(s) as int]),
    decreases s.len(),
{
    if s.len() > 0 && is_digit(s[0]) {
        let t = s.drop_first();
        lemma_digit_run_bounds(t);
        assert forall|i: int| 0 <= i < digit_run(s) implies is_digit(#[trigger] s[i]) by {
            if i > 0 {
                assert(s[i] == t[i - 1]);
            }
        }
        if digit_run(s) < s.len() {
            assert(s[digit_run(s) as int] == t[digit_run(t) as int]);
        }
    }
}

/// A prefix of a digit run denotes no more than the whole run.
pub proof fn lemma_decimal_value_prefix(s: Seq<u8>, k: int)
    requires
        0 <= k <= s.len(),
    ensures
        decimal_value(s.take(k)) <= decimal_value(s),
    decreases s.len(),
{
    if k == s.len() {
        assert(s.take(k) =~= s);
    } else {
        lemma_decimal_value_prefix(s.drop_last(), k);
        assert(s.drop_last().take(k) =~= s.take(k));
    }
}

/// Digits `d` in front of text that does not go on with a digit are the
/// leading number of the whole.
pub proof fn lemma_leading_number_concat(d: Seq<u8>, rest: Seq<u8>)
    requires
        all_digits(d),
        rest.len() == 0 || !is_digit(rest[0]),
    ensures
        leading_number(d + rest) == Some((d, rest)),
{
    let s = d + rest;
    let n = d.len() as int;
    assert forall|i: int| 0 <= i < n implies is_digit(#[trigger] s[i]) by {
        assert(s[i] == d[i]);
    }
    if n < s.len() {
        assert(s[n] == rest[0]);
    }
    lemma_digit_run_is(s, n);
    assert(s.take(n) =~= d);
    assert(s.skip(n) =~= rest);
}

/// `prefix` in front of `rest` is split again by `after_prefix`.
pub proof fn lemma_after_prefix_concat(prefix: Seq<u8>, rest: Seq<u8>)
    ensures
        after_prefix(prefix + rest, prefix) == Some(rest),
{
    let s = prefix + rest;
    assert(s.take(prefix.len() as int) =~= prefix);
    assert(s.skip(prefix.len() as int) =~= rest);
}

/// In text without a `-` in its first `n` bytes and with one right behind
/// them, the first `-` is at `n`; without any `-` it is at the end.
pub proof fn lemma_first_dash_is(s: Seq<u8>, n: int)
    requires
        0 <= n <= s.len(),
        forall|i: int| 0 <= i < n ==> #[trigger] s[i] != 45,
        n == s.len() || s[n] == 45,
    ensures
        first_dash(s) == n,
    decreases n,
{
    if n > 0 {
        let t = s.drop_first();
        assert forall|i: int| 0 <= i < n - 1 implies #[trigger] t[i] != 45 by {
            assert(t[i] == s[i + 1]);
        }
        if n < s.len() {
            assert(t[n - 1] == s[n]);
        }
        lemma_first_dash_is(t, n - 1);
    }
}

// ---------------------------------------------------------------------------
// Reading
// ---------------------------------------------------------------------------

/// `out` is the outcome `expected`, an error being reported together with the
/// text `input` that was refused.
pub open spec fn reports<T>(
    out: Result<T, VersionError>,
    expected: Result<T, VersionErrorKind>,
    input: Seq<char>,
) -> bool {
    match out {
        Ok(v) => expected == Ok::<T, VersionErrorKind>(v),
        Err(e) => expected == Err::<T, VersionErrorKind>(e.kind) && e.input@ == input,
    }
}

/// Attaches the refused text to the reason of a refusal.
fn with_input<T>(r: Result<T, VersionErrorKind>, input: &str) -> (out: Result<T, VersionError>)
    ensures
        reports(out, r, input@),
{
    match r {
        Ok(v) => Ok(v),
        Err(kind) => Err(VersionError { kind, input: input.to_owned() }),
    }
}

/// Splits off the digits that `s` begins with.
fn split_number(s: &[u8]) -> (r: Option<(&[u8], &[u8])>)
    ensures
        match r {
            Some((digits, rest)) => leading_number(s@) == Some((digits@, rest@)) && all_digits(
                digits@,
            ),
            None => leading_number(s@) is None,
        },
{
    let mut n: usize = 0;
    while n < s.len() && 48 <= s[n] && s[n] <= 57
        invariant
            n <= s.len(),
            forall|i: int| 0 <= i < n ==> is_digit(#[trigger] s@[i]),
        decreases s.len() - n,
    {
        n += 1;
    }
    proof {
        lemma_digit_run_is(s@, n as int);
    }
    if n == 0 {
        None
    } else {
        let digits = slice_subrange(s, 0, n);
        let rest = slice_subrange(s, n, s.len());
        Some((digits, rest))
    }
}

/// Computes the number that a run of digits denotes, if it fits in 32 bits.
fn number_value(digits: &[u8]) -> (r: Option<u32>)
    requires
        forall|i: int| 0 <= i < digits@.len() ==> is_digit(#[trigger] digits@[i]),
    ensures
        match r {
            Some(v) => v == decimal_value(digits@),
            None => decimal_value(digits@) > u32::MAX,
        },
{
    let mut value: u64 = 0;
    let mut i: usize = 0;
    while i < digits.len()
        invariant
            i <= digits.len(),
            value == decimal_value(digits@.take(i as int)),
            value <= u32::MAX,
            forall|j: int| 0 <= j < digits@.len() ==> is_digit(#[trigger] digits@[j]),
        decreases digits.len() - i,
    {
        let digit: u64 = (digits[i] - 48) as u64;
        proof {
            let next = digits@.take(i + 1);
            assert(next.drop_last() =~= digits@.take(i as int));
            assert(next.last() == digits@[i as int]);
        }
        value = value * 10 + digit;
        i += 1;
        if value > 0xffff_ffff {
            proof {
                lemma_decimal_value_prefix(digits@, i as int);
            }
            return None;
        }
    }
    proof {
        assert(digits@.take(i as int) =~= digits@);
    }
    Some(value as u32)
}

/// Removes `prefix` from the head of `s`.
fn strip_prefix<'a>(s: &'a [u8], prefix: &[u8]) -> (r: Option<&'a [u8]>)
    ensures
        match r {
            Some(rest) => after_prefix(s@, prefix@) == Some(rest@),
            None => after_prefix(s@, prefix@) is None,
        },
{
    if prefix.len() > s.len() {
        return None;
    }
    let mut i: usize = 0;
    while i < prefix.len()
        invariant
            i <= prefix.len() <= s.len(),
            forall|j: int| 0 <= j < i ==> s@[j] == prefix@[j],
        decreases prefix.len() - i,
    {
        if s[i] != prefix[i] {
            proof {
                assert(s@.take(prefix@.len() as int)[i as int] == s@[i as int]);
            }
            return None;
        }
        i += 1;
    }
    proof {
        assert(s@.take(prefix@.len() as int) =~= prefix@);
    }
    Some(slice_subrange(s, prefix.len(), s.len()))
}

/// Reads a suffix made of `tag` and digits.
fn strip_tag<'a>(s: &'a [u8], tag: &[u8]) -> (r: Option<&'a [u8]>)
    ensures
        match r {
            Some(digits) => tagged_digits(s@, tag@) == Some(digits@),
            None => tagged_digits(s@, tag@) is None,
        },
{
    match strip_prefix(s, tag) {
        None => None,
        Some(rest) => {
            proof {
                lemma_digit_run_bounds(rest@);
                if all_digits(rest@) {
                    lemma_digit_run_is(rest@, rest@.len() as int);
                }
            }
            match split_number(rest) {
                Some((_, tail)) => {
                    if tail.len() == 0 {
                        Some(rest)
                    } else {
                        None
                    }
                },
                None => None,
            }
        },
    }
}

/// Turns the digits of a stage into its number.
fn stage_number(digits: &[u8]) -> (r: Result<u32, VersionErrorKind>)
    requires
        all_digits(digits@),
    ensures
        match r {
            Ok(v) => v == decimal_value(digits@),
            Err(e) => e == VersionErrorKind::NumberTooLarge && decimal_value(digits@) > u32::MAX,
        },
{
    match number_value(digits) {
        Some(v) => Ok(v),
        None => Err(VersionErrorKind::NumberTooLarge),
    }
}

/// Reads `<digits>.<digits>` from the head of `s`.
fn split_pair(s: &[u8]) -> (r: Option<(&[u8], &[u8], &[u8])>)
    ensures
        match r {
            Some((first, second, rest)) => dotted_pair(s@) == Some((first@, second@, rest@))
                && all_digits(first@) && all_digits(second@),
            None => dotted_pair(s@) is None,
        },
{
    let dot_text: [u8; 1] = [46];
    assert(dot_text@ =~= dot());
    match split_number(s) {
        None => None,
        Some((first, r1)) => match strip_prefix(r1, dot_text.as_slice()) {
            None => None,
            Some(r2) => match split_number(r2) {
                None => None,
                Some((second, rest)) => Some((first, second, rest)),
            },
        },
    }
}

impl RudderVersionMode {
    /// Reads the stage from the bytes of a host version suffix.
    pub fn parse(s: &[u8]) -> (r: Result<RudderVersionMode, VersionErrorKind>)
        ensures
            r == spec_mode(s@),
    {
        let alpha: [u8; 6] = [126, 97, 108, 112, 104, 97];
        let beta: [u8; 5] = [126, 98, 101, 116, 97];
        let rc: [u8; 3] = [126, 114, 99];
        let git: [u8; 4] = [126, 103, 105, 116];
        assert(alpha@ =~= tag_alpha());
        assert(beta@ =~= tag_beta());
        assert(rc@ =~= tag_rc());
        assert(git@ =~= tag_git());
        if s.len() == 0 {
            return Ok(RudderVersionMode::Final);
        }
        if let Some(digits) = strip_tag(s, alpha.as_slice()) {
            return match stage_number(digits) {
                Ok(version) => Ok(RudderVersionMode::Alpha { version }),
                Err(e) => Err(e),
            };
        }
        if let Some(digits) = strip_tag(s, beta.as_slice()) {
            return match stage_number(digits) {
                Ok(version) => Ok(RudderVersionMode::Beta { version }),
                Err(e) => Err(e),
            };
        }
        if let Some(digits) = strip_tag(s, rc.as_slice()) {
            return match stage_number(digits) {
                Ok(version) => Ok(RudderVersionMode::Rc { version }),
                Err(e) => Err(e),
            };
        }
        if strip_tag(s, git.as_slice()).is_some() {
            return Ok(RudderVersionMode::Final);
        }
        Err(VersionErrorKind::RudderVersionMode)
    }

    /// Reads the stage from a host version suffix.
    pub fn from_str(s: &str) -> (r: Result<RudderVersionMode, VersionError>)
        ensures
            reports(r, spec_mode(s.spec_bytes()), s@),
    {
        with_input(Self::parse(s.as_bytes()), s)
    }
}

impl RudderVersion {
    /// Reads a host version from the bytes of its text.
    pub fn parse(s: &[u8]) -> (r: Result<RudderVersion, VersionErrorKind>)
        ensures
            r == spec_rudder_version(s@),
    {
        let dot_text: [u8; 1] = [46];
        assert(dot_text@ =~= dot());
        let (major, minor, r1) = match split_pair(s) {
            None => { return Err(VersionErrorKind::RudderVersion); },
            Some(parts) => parts,
        };
        let r2 = match strip_prefix(r1, dot_text.as_slice()) {
            None => { return Err(VersionErrorKind::RudderVersion); },
            Some(rest) => rest,
        };
        let (patch, suffix) = match split_number(r2) {
            None => { return Err(VersionErrorKind::RudderVersion); },
            Some(parts) => parts,
        };
        let major = number_value(major);
        let minor = number_value(minor);
        let patch = number_value(patch);
        match (major, minor, patch) {
            (Some(major), Some(minor), Some(patch)) => {
                match RudderVersionMode::parse(suffix) {
                    Ok(mode) => Ok(RudderVersion { major, minor, patch, mode }),
                    Err(e) => Err(e),
                }
            },
            _ => Err(VersionErrorKind::NumberTooLarge),
        }
    }

    /// Reads a host version such as `8.0.1~rc1`.
    pub fn from_str(s: &str) -> (r: Result<RudderVersion, VersionError>)
        ensures
            reports(r, spec_rudder_version(s.spec_bytes()), s@),
    {
        with_input(Self::parse(s.as_bytes()), s)
    }

    /// Whether a plugin built for `self` can run on the host `running`: the
    /// two agree on major and minor; patch and stage play no part.
    pub open spec fn compatible_with(self, running: RudderVersion) -> bool {
        self.major == running.major && self.minor == running.minor
    }

    /// Decides whether a plugin built for `self` can run on the host `running`.
    pub fn is_compatible(&self, running: &RudderVersion) -> (r: bool)
        ensures
            r == self.compatible_with(*running),
    {
        self.major == running.major && self.minor == running.minor
    }
}

impl PluginVersion {
    /// Reads a plugin version from the bytes of its text.
    pub fn parse(s: &[u8]) -> (r: Result<PluginVersion, VersionErrorKind>)
        ensures
            r == spec_plugin_version(s@),
    {
        let nightly_text: [u8; 8] = [45, 110, 105, 103, 104, 116, 108, 121];
        assert(nightly_text@ =~= tag_nightly());
        let (major, minor, rest) = match split_pair(s) {
            None => { return Err(VersionErrorKind::PluginVersion); },
            Some(parts) => parts,
        };
        let nightly = rest.len() != 0;
        if nightly {
            match strip_prefix(rest, nightly_text.as_slice()) {
                Some(tail) => {
                    if tail.len() != 0 {
                        return Err(VersionErrorKind::PluginVersion);
                    }
                    assert(rest@ =~= rest@.take(8) + tail@);
                },
                None => {
                    assert(rest@.len() == 8 ==> rest@.take(8) =~= rest@);
                    return Err(VersionErrorKind::PluginVersion);
                },
            }
        }
        match (number_value(major), number_value(minor)) {
            (Some(major), Some(minor)) => Ok(PluginVersion { major, minor, nightly }),
            _ => Err(VersionErrorKind::NumberTooLarge),
        }
    }

    /// Reads a plugin version such as `2.3` or `2.3-nightly`.
    pub fn from_str(s: &str) -> (r: Result<PluginVersion, VersionError>)
        ensures
            reports(r, spec_plugin_version(s.spec_bytes()), s@),
    {
        with_input(Self::parse(s.as_bytes()), s)
    }
}

impl ArchiveVersion {
    /// Reads an archive version from the bytes of its text.
    pub fn parse(s: &[u8]) -> (r: Result<ArchiveVersion, VersionErrorKind>)
        ensures
            r == spec_archive_version(s@),
    {
        let mut at: usize = 0;
        while at < s.len() && s[at] != 45
            invariant
                at <= s.len(),
                forall|i: int| 0 <= i < at ==> #[trigger] s@[i] != 45,
            decreases s.len() - at,
        {
            at += 1;
        }
        proof {
            lemma_first_dash_is(s@, at as int);
        }
        if at == s.len() {
            return Err(VersionErrorKind::ArchiveVersion);
        }
        let rudder_version = match RudderVersion::parse(slice_subrange(s, 0, at)) {
            Err(e) => { return Err(e); },
            Ok(v) => v,
        };
        match PluginVersion::parse(slice_subrange(s, at + 1, s.len())) {
            Err(e) => Err(e),
            Ok(plugin_version) => Ok(ArchiveVersion { rudder_version, plugin_version }),
        }
    }

    /// Reads an archive version such as `8.0.0~beta1-2.4-nightly`.
    pub fn from_str(s: &str) -> (r: Result<ArchiveVersion, VersionError>)
        ensures
            reports(r, spec_archive_version(s.spec_bytes()), s@),
    {
        with_input(Self::parse(s.as_bytes()), s)
    }
}

// ---------------------------------------------------------------------------
// Laws of the grammar
// ---------------------------------------------------------------------------

/// The version with the given numbers and stage.
pub open spec fn version_of(
    major: Seq<u8>,
    minor: Seq<u8>,
    patch: Seq<u8>,
    mode: RudderVersionMode,
) -> RudderVersion {
    RudderVersion {
        major: decimal_value(major) as u32,
        minor: decimal_value(minor) as u32,
        patch: decimal_value(patch) as u32,
        mode,
    }
}

/// Three numbers that fit in 32 bits, written with dots between them and
/// followed by a suffix that does not go on with a digit, are read back as
/// these numbers with the stage of the suffix; the text is refused exactly
/// where the suffix is, and for the same reason.
pub proof fn law_host_version_round_trip(
    major: Seq<u8>,
    minor: Seq<u8>,
    patch: Seq<u8>,
    suffix: Seq<u8>,
)
    requires
        all_digits(major) && decimal_value(major) <= u32::MAX,
        all_digits(minor) && decimal_value(minor) <= u32::MAX,
        all_digits(patch) && decimal_value(patch) <= u32::MAX,
        suffix.len() == 0 || !is_digit(suffix[0]),
    ensures
        spec_rudder_version(major + dot() + minor + dot() + patch + suffix) == match spec_mode(
            suffix,
        ) {
            Ok(mode) => Ok::<RudderVersion, VersionErrorKind>(
                version_of(major, minor, patch, mode),
            ),
            Err(e) => Err::<RudderVersion, VersionErrorKind>(e),
        },
{
    let r4 = patch + suffix;
    let r3 = dot() + r4;
    let r2 = minor + r3;
    let r1 = dot() + r2;
    let s = major + r1;
    assert(s =~= major + dot() + minor + dot() + patch + suffix);
    assert(r1[0] == 46u8 && r3[0] == 46u8);
    lemma_leading_number_concat(major, r1);
    lemma_after_prefix_concat(dot(), r2);
    lemma_leading_number_concat(minor, r3);
    lemma_after_prefix_concat(dot(), r4);
    lemma_leading_number_concat(patch, suffix);
    assert(dotted_pair(s) == Some((major, minor, r3)));
    assert(dotted_triple(s) == Some((major, minor, patch, suffix)));
}

/// The recognized suffixes and what they denote: none and `~git<digits>` a
/// final version, `~alpha<digits>`, `~beta<digits>` and `~rc<digits>` the
/// stage with that number, as long as it fits in 32 bits.
pub proof fn law_recognized_suffixes(digits: Seq<u8>)
    requires
        all_digits(digits),
    ensures
        spec_mode(Seq::<u8>::empty()) == Ok::<RudderVersionMode, VersionErrorKind>(
            RudderVersionMode::Final,
        ),
        spec_mode(tag_git() + digits) == Ok::<RudderVersionMode, VersionErrorKind>(
            RudderVersionMode::Final,
        ),
        decimal_value(digits) <= u32::MAX ==> {
            let version = decimal_value(digits) as u32;
            &&& spec_mode(tag_alpha() + digits) == Ok::<RudderVersionMode, VersionErrorKind>(
                RudderVersionMode::Alpha { version },
            )
            &&& spec_mode(tag_beta() + digits) == Ok::<RudderVersionMode, VersionErrorKind>(
                RudderVersionMode::Beta { version },
            )
            &&& spec_mode(tag_rc() + digits) == Ok::<RudderVersionMode, VersionErrorKind>(
                RudderVersionMode::Rc { version },
            )
        },
{
    lemma_after_prefix_concat(tag_alpha(), digits);
    lemma_after_prefix_concat(tag_beta(), digits);
    lemma_after_prefix_concat(tag_rc(), digits);
    lemma_after_prefix_concat(tag_git(), digits);
    let b = tag_beta() + digits;
    let r = tag_rc() + digits;
    let g = tag_git() + digits;
    assert(b[1] == 98u8 && r[1] == 114u8 && g[1] == 103u8);
    lemma_prefix_mismatch(b, tag_alpha(), 1);
    lemma_prefix_mismatch(r, tag_alpha(), 1);
    lemma_prefix_mismatch(r, tag_beta(), 1);
    lemma_prefix_mismatch(g, tag_alpha(), 1);
    lemma_prefix_mismatch(g, tag_beta(), 1);
    lemma_prefix_mismatch(g, tag_rc(), 1);
}

/// A text that differs from `prefix` at a position inside it, or ends before
/// that position, does not begin with `prefix`.
pub proof fn lemma_prefix_mismatch(s: Seq<u8>, prefix: Seq<u8>, at: int)
    requires
        0 <= at < prefix.len(),
        s.len() <= at || s[at] != prefix[at],
    ensures
        after_prefix(s, prefix) is None,
{
    if prefix.len() <= s.len() {
        assert(s.take(prefix.len() as int)[at] == s[at]);
    }
}

/// A suffix that is neither empty nor one of the four tags followed by digits
/// alone is refused.
pub proof fn law_other_suffix_refused(suffix: Seq<u8>)
    requires
        suffix.len() > 0,
        forall|digits: Seq<u8>|
            all_digits(digits) ==> suffix != #[trigger] (tag_alpha() + digits) && suffix != (
            tag_beta() + digits) && suffix != (tag_rc() + digits) && suffix != (tag_git()
                + digits),
    ensures
        spec_mode(suffix) == Err::<RudderVersionMode, VersionErrorKind>(
            VersionErrorKind::RudderVersionMode,
        ),
{
    lemma_tagged_digits_concat(suffix, tag_alpha());
    lemma_tagged_digits_concat(suffix, tag_beta());
    lemma_tagged_digits_concat(suffix, tag_rc());
    lemma_tagged_digits_concat(suffix, tag_git());
    if let Some(d) = tagged_digits(suffix, tag_alpha()) {
        assert(suffix == tag_alpha() + d);
    }
    if let Some(d) = tagged_digits(suffix, tag_beta()) {
        assert(suffix != tag_alpha() + d);
    }
    if let Some(d) = tagged_digits(suffix, tag_rc()) {
        assert(suffix != tag_alpha() + d);
    }
    if let Some(d) = tagged_digits(suffix, tag_git()) {
        assert(suffix != tag_alpha() + d);
    }
}

/// A text with the digits `d` behind `tag` is `tag` followed by `d`.
pub proof fn lemma_tagged_digits_concat(s: Seq<u8>, tag: Seq<u8>)
    ensures
        match tagged_digits(s, tag) {
            Some(d) => s == tag + d && all_digits(d),
            None => true,
        },
{
    if let Some(d) = tagged_digits(s, tag) {
        assert(s =~= s.take(tag.len() as int) + s.skip(tag.len() as int));
    }
}

/// Two numbers that fit in 32 bits, written with a dot between them, are read
/// back as the release with these numbers, and with `-nightly` behind them as
/// its nightly build.
pub proof fn law_plugin_version_round_trip(major: Seq<u8>, minor: Seq<u8>)
    requires
        all_digits(major) && decimal_value(major) <= u32::MAX,
        all_digits(minor) && decimal_value(minor) <= u32::MAX,
    ensures
        spec_plugin_version(major + dot() + minor) == Ok::<PluginVersion, VersionErrorKind>(
            PluginVersion {
                major: decimal_value(major) as u32,
                minor: decimal_value(minor) as u32,
                nightly: false,
            },
        ),
        spec_plugin_version(major + dot() + minor + tag_nightly()) == Ok::<
            PluginVersion,
            VersionErrorKind,
        >(
            PluginVersion {
                major: decimal_value(major) as u32,
                minor: decimal_value(minor) as u32,
                nightly: true,
            },
        ),
{
    let none = Seq::<u8>::empty();
    let r2 = minor + none;
    let r1 = dot() + r2;
    let s = major + r1;
    assert(s =~= major + dot() + minor);
    assert(r1[0] == 46u8);
    lemma_leading_number_concat(major, r1);
    lemma_after_prefix_concat(dot(), r2);
    lemma_leading_number_concat(minor, none);
    assert(dotted_pair(s) == Some((major, minor, none)));

    let n2 = minor + tag_nightly();
    let n1 = dot() + n2;
    let t = major + n1;
    assert(t =~= major + dot() + minor + tag_nightly());
    assert(n1[0] == 46u8);
    assert(tag_nightly()[0] == 45u8);
    lemma_leading_number_concat(major, n1);
    lemma_after_prefix_concat(dot(), n2);
    lemma_leading_number_concat(minor, tag_nightly());
    assert(dotted_pair(t) == Some((major, minor, tag_nightly())));
}

// ---------------------------------------------------------------------------
// Writing
// ---------------------------------------------------------------------------

/// The digits of `n` in base ten, without leading zeros.
pub open spec fn decimal_digits(n: nat) -> Seq<u8>
    decreases n,
{
    if n < 10 {
        seq![(48 + n) as u8]
    } else {
        decimal_digits(n / 10).push((48 + n % 10) as u8)
    }
}

/// The text `-`.
pub open spec fn dash() -> Seq<u8> {
    seq![45u8]
}

/// The suffix that denotes the stage `mode`.
pub open spec fn spec_render_mode(mode: RudderVersionMode) -> Seq<u8> {
    match mode {
        RudderVersionMode::Alpha { version } => tag_alpha() + decimal_digits(version as nat),
        RudderVersionMode::Beta { version } => tag_beta() + decimal_digits(version as nat),
        RudderVersionMode::Rc { version } => tag_rc() + decimal_digits(version as nat),
        RudderVersionMode::Final => Seq::empty(),
    }
}

/// The text of a host version.
pub open spec fn spec_render_rudder(v: RudderVersion) -> Seq<u8> {
    decimal_digits(v.major as nat) + dot() + decimal_digits(v.minor as nat) + dot()
        + decimal_digits(v.patch as nat) + spec_render_mode(v.mode)
}

/// The text of a plugin version.
pub open spec fn spec_render_plugin(v: PluginVersion) -> Seq<u8> {
    decimal_digits(v.major as nat) + dot() + decimal_digits(v.minor as nat) + if v.nightly {
        tag_nightly()
    } else {
        Seq::empty()
    }
}

/// The text of an archive version.
pub open spec fn spec_render_archive(v: ArchiveVersion) -> Seq<u8> {
    spec_render_rudder(v.rudder_version) + dash() + spec_render_plugin(v.plugin_version)
}

/// The digits of a number are digits, and they denote the number.
pub proof fn lemma_decimal_digits(n: nat)
    ensures
        all_digits(decimal_digits(n)),
        decimal_value(decimal_digits(n)) == n,
    decreases n,
{
    if n < 10 {
        let d = decimal_digits(n);
        assert(d.drop_last() =~= Seq::<u8>::empty());
        assert(decimal_value(d.drop_last()) == 0);
    } else {
        lemma_decimal_digits(n / 10);
        let front = decimal_digits(n / 10);
        let d = decimal_digits(n);
        assert(d.drop_last() =~= front);
        assert forall|i: int| 0 <= i < d.len() implies is_digit(#[trigger] d[i]) by {
            if i < front.len() {
                assert(d[i] == front[i]);
            }
        }
    }
}

/// Appends the digits of a number.
fn push_number(out: &mut Vec<u8>, n: u32)
    ensures
        final(out)@ == old(out)@ + decimal_digits(n as nat),
    decreases n,
{
    if n >= 10 {
        push_number(out, n / 10);
    }
    let ghost before = out@;
    out.push(48 + (n % 10) as u8);
    proof {
        if n < 10 {
            assert(out@ =~= old(out)@ + decimal_digits(n as nat));
        } else {
            assert(before == old(out)@ + decimal_digits((n / 10) as nat));
            assert(out@ =~= old(out)@ + decimal_digits(n as nat));
        }
    }
}

/// Appends a text.
fn push_text(out: &mut Vec<u8>, text: &[u8])
    ensures
        final(out)@ == old(out)@ + text@,
{
    let mut i: usize = 0;
    while i < text.len()
        invariant
            i <= text.len(),
            out@ == old(out)@ + text@.take(i as int),
        decreases text.len() - i,
    {
        out.push(text[i]);
        assert(text@.take(i + 1) =~= text@.take(i as int).push(text@[i as int]));
        i += 1;
    }
    assert(text@.take(i as int) =~= text@);
}

/// The texts of versions are ASCII.
pub proof fn lemma_rendered_is_ascii(v: ArchiveVersion)
    ensures
        is_ascii_bytes(spec_render_rudder(v.rudder_version)),
        is_ascii_bytes(spec_render_plugin(v.plugin_version)),
        is_ascii_bytes(spec_render_archive(v)),
        is_ascii_bytes(spec_render_mode(v.rudder_version.mode)),
{
    let r = v.rudder_version;
    let p = v.plugin_version;
    lemma_decimal_digits(r.major as nat);
    lemma_decimal_digits(r.minor as nat);
    lemma_decimal_digits(r.patch as nat);
    lemma_decimal_digits(p.major as nat);
    lemma_decimal_digits(p.minor as nat);
    match r.mode {
        RudderVersionMode::Alpha { version } => lemma_decimal_digits(version as nat),
        RudderVersionMode::Beta { version } => lemma_decimal_digits(version as nat),
        RudderVersionMode::Rc { version } => lemma_decimal_digits(version as nat),
        RudderVersionMode::Final => {},
    }
    lemma_digits_are_ascii(decimal_digits(r.major as nat));
    lemma_digits_are_ascii(decimal_digits(r.minor as nat));
    lemma_digits_are_ascii(decimal_digits(r.patch as nat));
    lemma_digits_are_ascii(decimal_digits(p.major as nat));
    lemma_digits_are_ascii(decimal_digits(p.minor as nat));
    let mode = spec_render_mode(r.mode);
    assert(is_ascii_bytes(mode)) by {
        match r.mode {
            RudderVersionMode::Alpha { version } => {
                lemma_digits_are_ascii(decimal_digits(version as nat));
                lemma_ascii_concat(tag_alpha(), decimal_digits(version as nat));
            },
            RudderVersionMode::Beta { version } => {
                lemma_digits_are_ascii(decimal_digits(version as nat));
                lemma_ascii_concat(tag_beta(), decimal_digits(version as nat));
            },
            RudderVersionMode::Rc { version } => {
                lemma_digits_are_ascii(decimal_digits(version as nat));
                lemma_ascii_concat(tag_rc(), decimal_digits(version as nat));
            },
            RudderVersionMode::Final => {},
        }
    }
    let a = decimal_digits(r.major as nat);
    let b = decimal_digits(r.minor as nat);
    let c = decimal_digits(r.patch as nat);
    lemma_ascii_concat(a, dot());
    lemma_ascii_concat(a + dot(), b);
    lemma_ascii_concat(a + dot() + b, dot());
    lemma_ascii_concat(a + dot() + b + dot(), c);
    lemma_ascii_concat(a + dot() + b + dot() + c, mode);
    let x = decimal_digits(p.major as nat);
    let y = decimal_digits(p.minor as nat);
    let tail = if p.nightly {
        tag_nightly()
    } else {
        Seq::<u8>::empty()
    };
    lemma_ascii_concat(x, dot());
    lemma_ascii_concat(x + dot(), y);
    lemma_ascii_concat(x + dot() + y, tail);
    lemma_ascii_concat(spec_render_rudder(r), dash());
    lemma_ascii_concat(spec_render_rudder(r) + dash(), spec_render_plugin(p));
}

/// Digits are ASCII characters.
pub proof fn lemma_digits_are_ascii(digits: Seq<u8>)
    requires
        all_digits(digits),
    ensures
        is_ascii_bytes(digits),
{
}

/// ASCII text followed by ASCII text is ASCII text.
pub proof fn lemma_ascii_concat(a: Seq<u8>, b: Seq<u8>)
    requires
        is_ascii_bytes(a),
        is_ascii_bytes(b),
    ensures
        is_ascii_bytes(a + b),
{
    assert forall|i: int| 0 <= i < (a + b).len() implies #[trigger] (a + b)[i] < 128 by {
        if i < a.len() {
            assert((a + b)[i] == a[i]);
        } else {
            assert((a + b)[i] == b[i - a.len()]);
        }
    }
}

impl RudderVersionMode {
    /// Appends the suffix of the stage.
    fn write(&self, out: &mut Vec<u8>)
        ensures
            final(out)@ == old(out)@ + spec_render_mode(*self),
    {
        let alpha: [u8; 6] = [126, 97, 108, 112, 104, 97];
        let beta: [u8; 5] = [126, 98, 101, 116, 97];
        let rc: [u8; 3] = [126, 114, 99];
        assert(alpha@ =~= tag_alpha());
        assert(beta@ =~= tag_beta());
        assert(rc@ =~= tag_rc());
        match self {
            RudderVersionMode::Alpha { version } => {
                push_text(out, alpha.as_slice());
                push_number(out, *version);
                assert(out@ =~= old(out)@ + spec_render_mode(*self));
            },
            RudderVersionMode::Beta { version } => {
                push_text(out, beta.as_slice());
                push_number(out, *version);
                assert(out@ =~= old(out)@ + spec_render_mode(*self));
            },
            RudderVersionMode::Rc { version } => {
                push_text(out, rc.as_slice());
                push_number(out, *version);
                assert(out@ =~= old(out)@ + spec_render_mode(*self));
            },
            RudderVersionMode::Final => {
                assert(out@ =~= old(out)@ + spec_render_mode(*self));
            },
        }
    }
}

impl RudderVersion {
    /// Appends the text of the version.
    fn write(&self, out: &mut Vec<u8>)
        ensures
            final(out)@ == old(out)@ + spec_render_rudder(*self),
    {
        let dot_text: [u8; 1] = [46];
        assert(dot_text@ =~= dot());
        push_number(out, self.major);
        push_text(out, dot_text.as_slice());
        push_number(out, self.minor);
        push_text(out, dot_text.as_slice());
        push_number(out, self.patch);
        self.mode.write(out);
        assert(out@ =~= old(out)@ + spec_render_rudder(*self));
    }

    /// Writes the version as text, such as `8.0.1~rc1`.
    pub fn render(&self) -> (r: String)
        ensures
            encode_utf8(r@) == spec_render_rudder(*self),
    {
        let mut out: Vec<u8> = Vec::new();
        self.write(&mut out);
        proof {
            lemma_rendered_is_ascii(
                ArchiveVersion {
                    rudder_version: *self,
                    plugin_version: PluginVersion { major: 0, minor: 0, nightly: false },
                },
            );
            assert(out@ =~= spec_render_rudder(*self));
        }
        ascii_text(&out)
    }
}

impl PluginVersion {
    /// Appends the text of the version.
    fn write(&self, out: &mut Vec<u8>)
        ensures
            final(out)@ == old(out)@ + spec_render_plugin(*self),
    {
        let dot_text: [u8; 1] = [46];
        let nightly_text: [u8; 8] = [45, 110, 105, 103, 104, 116, 108, 121];
        assert(dot_text@ =~= dot());
        assert(nightly_text@ =~= tag_nightly());
        push_number(out, self.major);
        push_text(out, dot_text.as_slice());
        push_number(out, self.minor);
        if self.nightly {
            push_text(out, nightly_text.as_slice());
        }
        assert(out@ =~= old(out)@ + spec_render_plugin(*self));
    }

    /// Writes the version as text, such as `2.3-nightly`.
    pub fn render(&self) -> (r: String)
        ensures
            encode_utf8(r@) == spec_render_plugin(*self),
    {
        let mut out: Vec<u8> = Vec::new();
        self.write(&mut out);
        proof {
            lemma_rendered_is_ascii(
                ArchiveVersion {
                    rudder_version: RudderVersion {
                        major: 0,
                        minor: 0,
                        patch: 0,
                        mode: RudderVersionMode::Final,
                    },
                    plugin_version: *self,
                },
            );
            assert(out@ =~= spec_render_plugin(*self));
        }
        ascii_text(&out)
    }
}

impl ArchiveVersion {
    /// Writes the version as text, such as `8.0.1~rc1-2.3-nightly`.
    pub fn render(&self) -> (r: String)
        ensures
            encode_utf8(r@) == spec_render_archive(*self),
    {
        let dash_text: [u8; 1] = [45];
        assert(dash_text@ =~= dash());
        let mut out: Vec<u8> = Vec::new();
        self.rudder_version.write(&mut out);
        push_text(&mut out, dash_text.as_slice());
        self.plugin_version.write(&mut out);
        proof {
            lemma_rendered_is_ascii(*self);
            assert(out@ =~= spec_render_archive(*self));
        }
        ascii_text(&out)
    }
}

/// A stage is read back from its suffix.
pub proof fn law_mode_round_trip(mode: RudderVersionMode)
    ensures
        spec_mode(spec_render_mode(mode)) == Ok::<RudderVersionMode, VersionErrorKind>(mode),
        spec_render_mode(mode).len() == 0 || !is_digit(spec_render_mode(mode)[0]),
{
    match mode {
        RudderVersionMode::Alpha { version } => {
            lemma_decimal_digits(version as nat);
            law_recognized_suffixes(decimal_digits(version as nat));
        },
        RudderVersionMode::Beta { version } => {
            lemma_decimal_digits(version as nat);
            law_recognized_suffixes(decimal_digits(version as nat));
        },
        RudderVersionMode::Rc { version } => {
            lemma_decimal_digits(version as nat);
            law_recognized_suffixes(decimal_digits(version as nat));
        },
        RudderVersionMode::Final => {},
    }
}

/// A host version is read back from its text.
pub proof fn law_rudder_version_round_trip(v: RudderVersion)
    ensures
        spec_rudder_version(spec_render_rudder(v)) == Ok::<RudderVersion, VersionErrorKind>(v),
{
    lemma_decimal_digits(v.major as nat);
    lemma_decimal_digits(v.minor as nat);
    lemma_decimal_digits(v.patch as nat);
    law_mode_round_trip(v.mode);
    law_host_version_round_trip(
        decimal_digits(v.major as nat),
        decimal_digits(v.minor as nat),
        decimal_digits(v.patch as nat),
        spec_render_mode(v.mode),
    );
}

/// A plugin version is read back from its text.
pub proof fn law_plugin_version_round_trip_of(v: PluginVersion)
    ensures
        spec_plugin_version(spec_render_plugin(v)) == Ok::<PluginVersion, VersionErrorKind>(v),
{
    lemma_decimal_digits(v.major as nat);
    lemma_decimal_digits(v.minor as nat);
    law_plugin_version_round_trip(decimal_digits(v.major as nat), decimal_digits(v.minor as nat));
    if !v.nightly {
        assert(spec_render_plugin(v) =~= decimal_digits(v.major as nat) + dot() + decimal_digits(
            v.minor as nat,
        ));
    }
}

/// The text of a host version holds no `-`.
pub proof fn lemma_no_dash_in_host_version(v: RudderVersion)
    ensures
        forall|i: int|
            0 <= i < spec_render_rudder(v).len() ==> #[trigger] spec_render_rudder(v)[i] != 45,
{
    lemma_decimal_digits(v.major as nat);
    lemma_decimal_digits(v.minor as nat);
    lemma_decimal_digits(v.patch as nat);
    let a = decimal_digits(v.major as nat);
    let b = decimal_digits(v.minor as nat);
    let c = decimal_digits(v.patch as nat);
    let m = spec_render_mode(v.mode);
    assert forall|i: int| 0 <= i < m.len() implies #[trigger] m[i] != 45 by {
        match v.mode {
            RudderVersionMode::Alpha { version } => {
                lemma_decimal_digits(version as nat);
                let d = decimal_digits(version as nat);
                if i >= 6 {
                    assert(m[i] == d[i - 6]);
                }
            },
            RudderVersionMode::Beta { version } => {
                lemma_decimal_digits(version as nat);
                let d = decimal_digits(version as nat);
                if i >= 5 {
                    assert(m[i] == d[i - 5]);
                }
            },
            RudderVersionMode::Rc { version } => {
                lemma_decimal_digits(version as nat);
                let d = decimal_digits(version as nat);
                if i >= 3 {
                    assert(m[i] == d[i - 3]);
                }
            },
            RudderVersionMode::Final => {},
        }
    }
    let s = spec_render_rudder(v);
    assert forall|i: int| 0 <= i < s.len() implies #[trigger] s[i] != 45 by {
        if i < a.len() {
            assert(s[i] == a[i]);
        } else if i < a.len() + 1 {
        } else if i < a.len() + 1 + b.len() {
            assert(s[i] == b[i - a.len() - 1]);
        } else if i < a.len() + 1 + b.len() + 1 {
        } else if i < a.len() + 1 + b.len() + 1 + c.len() {
            assert(s[i] == c[i - a.len() - 1 - b.len() - 1]);
        } else {
            assert(s[i] == m[i - a.len() - 1 - b.len() - 1 - c.len()]);
        }
    }
}

/// An archive version is read back from its text.
pub proof fn law_archive_version_round_trip(v: ArchiveVersion)
    ensures
        spec_archive_version(spec_render_archive(v)) == Ok::<ArchiveVersion, VersionErrorKind>(v),
{
    let host = spec_render_rudder(v.rudder_version);
    let plugin = spec_render_plugin(v.plugin_version);
    let s = spec_render_archive(v);
    lemma_no_dash_in_host_version(v.rudder_version);
    assert forall|i: int| 0 <= i < host.len() implies #[trigger] s[i] != 45 by {
        assert(s[i] == host[i]);
    }
    assert(s[host.len() as int] == 45u8);
    lemma_first_dash_is(s, host.len() as int);
    assert(s.take(host.len() as int) =~= host);
    assert(s.skip(host.len() as int + 1) =~= plugin);
    law_rudder_version_round_trip(v.rudder_version);
    law_plugin_version_round_trip_of(v.plugin_version);
}

/// The text of the number `n` in base ten.
pub open spec fn spec_number_text(n: u32) -> Seq<char> {
    vstd::utf8::decode_utf8(decimal_digits(n as nat))
}

/// Writes a number in base ten.
pub fn number_text(n: u32) -> (r: String)
    ensures
        r@ == spec_number_text(n),
{
    let mut out: Vec<u8> = Vec::new();
    push_number(&mut out, n);
    proof {
        lemma_decimal_digits(n as nat);
        lemma_digits_are_ascii(decimal_digits(n as nat));
        assert(out@ =~= decimal_digits(n as nat));
    }
    ascii_text(&out)
}


// ---------------------------------------------------------------------------
// The file that holds the version of the host
// ---------------------------------------------------------------------------

/// What follows `key` in `line`, the white space around the line left aside;
/// `None` where the line does not begin with `key`.
pub open spec fn keyed_value(line: Seq<char>, key: Seq<char>) -> Option<Seq<char>> {
    let t = trimmed(line);
    if key.len() <= t.len() && t.take(key.len() as int) == key {
        Some(t.skip(key.len() as int))
    } else {
        None
    }
}

/// What follows `key` in the first line of `content` that begins with it.
pub open spec fn first_keyed(content: Seq<char>, key: Seq<char>) -> Option<Seq<char>>
    decreases content.len(),
{
    let n = first_char(content, '\n') as int;
    match keyed_value(content.take(n), key) {
        Some(value) => Some(value),
        None => if n >= content.len() {
            None
        } else {
            first_keyed(content.skip(n + 1), key)
        },
    }
}

/// The text of the version in the content of the file that holds the version
/// of the host: what follows `rudder_version=` in the first line that begins
/// so, or else the whole content; in either case without the white space
/// around it.
pub open spec fn spec_version_text(content: Seq<char>) -> Seq<char> {
    match first_keyed(content, "rudder_version="@) {
        Some(value) => value,
        None => trimmed(content),
    }
}

/// Reads the version of the running host from the content of the file that
/// holds it.
pub fn running_version(content: &str) -> (r: Result<RudderVersion, VersionError>)
    ensures
        reports(
            r,
            spec_rudder_version(encode_utf8(spec_version_text(content@))),
            spec_version_text(content@),
        ),
{
    let chars = chars_of(content);
    let key = chars_of("rudder_version=");
    let n: usize = chars.len();
    let mut start: usize = 0;
    assert(content@.skip(0) =~= content@);
    loop
        invariant
            start <= n == chars@.len(),
            chars@ == content@,
            key@ == "rudder_version="@,
            first_keyed(content@, key@) == first_keyed(content@.skip(start as int), key@),
        ensures
            first_keyed(content@, key@) is None,
        decreases n - start,
    {
        let ghost rest = content@.skip(start as int);
        let mut end: usize = start;
        while end < n && chars[end] != '\n'
            invariant
                start <= end <= n == chars@.len(),
                forall|i: int| start <= i < end ==> #[trigger] chars@[i] != '\n',
            decreases n - end,
        {
            end += 1;
        }
        proof {
            assert forall|i: int| 0 <= i < end - start implies #[trigger] rest[i] != '\n' by {
                assert(rest[i] == chars@[start + i]);
            }
            if end < n {
                assert(rest[end - start] == chars@[end as int]);
            }
            lemma_first_char_is(rest, '\n', end - start);
            assert(rest.take(end - start) =~= chars@.subrange(start as int, end as int));
        }
        let (a, b) = trim_bounds(&chars, start, end);
        let ghost t = chars@.subrange(a as int, b as int);
        let mut matches = key.len() <= b - a;
        let mut k: usize = 0;
        while matches && k < key.len()
            invariant
                a <= b <= n == chars@.len(),
                k <= key@.len(),
                matches ==> key@.len() <= b - a,
                t == chars@.subrange(a as int, b as int),
                matches ==> forall|j: int| 0 <= j < k ==> t[j] == key@[j],
                !matches ==> !(key@.len() <= t.len() && t.take(key@.len() as int) == key@),
            decreases key.len() - k + (if matches { 1int } else { 0int }),
        {
            if chars[a + k] != key[k] {
                assert(t.take(key@.len() as int)[k as int] == t[k as int]);
                assert(t[k as int] == chars@[a + k]);
                matches = false;
            } else {
                assert(t[k as int] == chars@[a + k]);
                k += 1;
            }
        }
        if matches {
            proof {
                assert(t.take(key@.len() as int) =~= key@);
                assert(t.skip(key@.len() as int) =~= content@.subrange(a + key@.len(), b as int));
            }
            let text = content.substring_char(a + key.len(), b);
            return RudderVersion::from_str(text);
        }
        proof {
            assert(keyed_value(rest.take(end - start), key@) is None);
        }
        if end == n {
            assert(first_keyed(rest, key@) is None);
            break ;
        }
        proof {
            assert(rest.skip(end - start + 1) =~= content@.skip(end + 1));
        }
        start = end + 1;
    }
    let (a, b) = trim_bounds(&chars, 0, n);
    proof {
        assert(chars@.subrange(0, n as int) =~= content@);
    }
    RudderVersion::from_str(content.substring_char(a, b))
}

} // verus!
