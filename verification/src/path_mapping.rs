//! Rewriting paths between the form the caller uses and the form the target
//! understands, by configured prefix rules.

use crate::config::{PathMappingRule, Platform};
use crate::platform::{resolve_target_platform, resolved_platform, HostPlatform, RuntimePlatform, TargetPlatform};
use crate::text::{
    chars_of, contains_char, seq_ends_with, seq_starts_with, slice_range, starts_with_chars,
    string_from_chars, trim_seq, trimmed_chars,
};
use vstd::prelude::*;

verus! {

/// Maps paths by the first applicable rule.
#[derive(Debug, Clone)]
pub struct PathMapper {
    rules: Vec<PathMappingRule>,
    target_platform: RuntimePlatform,
    running_inside_wsl: bool,
}

/// `s` with every `from` character replaced by `to`.
pub open spec fn replace_char(s: Seq<char>, from: char, to: char) -> Seq<char> {
    s.map_values(|c: char| if c == from { to } else { c })
}

/// A path-mapping rule as a mathematical value.
pub struct MappingRuleView {
    pub from: Seq<char>,
    pub to: Seq<char>,
    pub platforms: Seq<Platform>,
}

/// The views of configured path-mapping rules.
pub open spec fn mapping_views(rules: Seq<PathMappingRule>) -> Seq<MappingRuleView> {
    rules.map_values(|r: PathMappingRule| MappingRuleView { from: r.from@, to: r.to@, platforms: r.platforms@ })
}

/// Whether `s` starts with the character `c`.
pub open spec fn starts_with_char(s: Seq<char>, c: char) -> bool {
    s.len() > 0 && s[0] == c
}

/// Whether `s` ends with the character `c`.
pub open spec fn ends_with_char(s: Seq<char>, c: char) -> bool {
    s.len() > 0 && s.last() == c
}

/// The result of one rule on `input`: `None` when `input` does not start
/// with the rule's `from`; otherwise `to` joined with the rest of `input`,
/// whose separators are converted to the style of `to` (Windows when `to`
/// holds a backslash) and joined with exactly the separators present.
pub open spec fn apply_rule_spec(input: Seq<char>, from: Seq<char>, to: Seq<char>) -> Option<Seq<char>> {
    if !seq_starts_with(input, from) {
        None
    } else {
        let remainder = input.skip(from.len() as int);
        let windows = to.contains('\\');
        let converted = if windows {
            replace_char(remainder, '/', '\\')
        } else {
            replace_char(remainder, '\\', '/')
        };
        let sep = if windows { '\\' } else { '/' };
        let normalized = if ends_with_char(to, sep) && starts_with_char(converted, sep) {
            converted.drop_first()
        } else {
            converted
        };
        if normalized.len() == 0 {
            Some(to)
        } else if !ends_with_char(to, '/') && !ends_with_char(to, '\\') && !starts_with_char(
            normalized,
            '/',
        ) && !starts_with_char(normalized, '\\') {
            Some(to.push(sep) + normalized)
        } else {
            Some(to + normalized)
        }
    }
}

/// Whether a rule limited to `platforms` applies on `target` (and inside
/// WSL when `inside_wsl`); an empty list applies everywhere.
pub open spec fn rule_applies_spec(platforms: Seq<Platform>, target: RuntimePlatform, inside_wsl: bool) -> bool {
    platforms.len() == 0 || exists|k: int|
        0 <= k < platforms.len() && #[trigger] platform_selected(platforms[k], target, inside_wsl)
}

/// Whether one platform entry selects the current target.
pub open spec fn platform_selected(p: Platform, target: RuntimePlatform, inside_wsl: bool) -> bool {
    match p {
        Platform::Windows => target == RuntimePlatform::Windows,
        Platform::Linux => target == RuntimePlatform::Linux,
        Platform::Macos => target == RuntimePlatform::Macos,
        Platform::Wsl => inside_wsl,
    }
}

/// The result of the first applicable rule (from index `k` on) that
/// matches `input`, or `input` itself.
pub open spec fn map_with_rules(
    rules: Seq<MappingRuleView>,
    target: RuntimePlatform,
    inside_wsl: bool,
    input: Seq<char>,
    k: int,
) -> Seq<char>
    decreases rules.len() - k,
{
    if 0 <= k < rules.len() {
        if rule_applies_spec(rules[k].platforms, target, inside_wsl) && apply_rule_spec(
            input,
            rules[k].from,
            rules[k].to,
        ) is Some {
            apply_rule_spec(input, rules[k].from, rules[k].to)->0
        } else {
            map_with_rules(rules, target, inside_wsl, input, k + 1)
        }
    } else {
        input
    }
}

/// Whether a token looks like an absolute POSIX path, a UNC path or a
/// Windows drive path such as `C:\`.
pub open spec fn looks_like_path_spec(s: Seq<char>) -> bool {
    starts_with_char(s, '/') || seq_starts_with(s, seq!['\\', '\\']) || (s.len() >= 3 && (('a'
        <= s[0] && s[0] <= 'z') || ('A' <= s[0] && s[0] <= 'Z')) && s[1] == ':' && s[2] == '\\')
}

impl PathMapper {
    /// The rules, the resolved target platform and the WSL flag.
    pub closed spec fn mapper_rules(&self) -> Seq<MappingRuleView> {
        mapping_views(self.rules@)
    }

    pub closed spec fn mapper_target(&self) -> RuntimePlatform {
        self.target_platform
    }

    pub closed spec fn mapper_inside_wsl(&self) -> bool {
        self.running_inside_wsl
    }

    /// What `map_path` returns for `raw`.
    pub open spec fn mapped(&self, raw: Seq<char>) -> Seq<char> {
        let trimmed = trim_seq(raw);
        if trimmed.len() == 0 {
            Seq::empty()
        } else {
            map_with_rules(self.mapper_rules(), self.mapper_target(), self.mapper_inside_wsl(), trimmed, 0)
        }
    }

    /// A mapper for a target; `Auto` resolves to the platform the server
    /// runs on.
    pub fn new(rules: Vec<PathMappingRule>, target: TargetPlatform, host: HostPlatform) -> (m: Self)
        ensures
            m.mapper_rules() == mapping_views(rules@),
            m.mapper_target() == resolved_platform(target, host.platform),
            m.mapper_inside_wsl() == host.inside_wsl,
    {
        PathMapper {
            rules,
            target_platform: resolve_target_platform(target, host.platform),
            running_inside_wsl: host.inside_wsl,
        }
    }

    fn rule_applies(&self, rule: &PathMappingRule) -> (b: bool)
        ensures
            b == rule_applies_spec(rule.platforms@, self.target_platform, self.running_inside_wsl),
    {
        if rule.platforms.len() == 0 {
            return true;
        }
        let mut k: usize = 0;
        while k < rule.platforms.len()
            invariant
                k <= rule.platforms@.len(),
                forall|m: int|
                    0 <= m < k ==> !#[trigger] platform_selected(
                        rule.platforms@[m],
                        self.target_platform,
                        self.running_inside_wsl,
                    ),
            decreases rule.platforms@.len() - k,
        {
            let selected = match rule.platforms[k] {
                Platform::Windows => self.target_platform == RuntimePlatform::Windows,
                Platform::Linux => self.target_platform == RuntimePlatform::Linux,
                Platform::Macos => self.target_platform == RuntimePlatform::Macos,
                Platform::Wsl => self.running_inside_wsl,
            };
            if selected {
                assert(platform_selected(rule.platforms@[k as int], self.target_platform, self.running_inside_wsl));
                return true;
            }
            k += 1;
        }
        false
    }

    /// Maps a path by the first applicable rule that matches it; a blank path
    /// maps to the empty string and an unmatched path to itself, trimmed.
    pub fn map_path(&self, raw_path: &str) -> (out: String)
        ensures
            out@ == self.mapped(raw_path@),
    {
        let trimmed = trimmed_chars(raw_path);
        if trimmed.len() == 0 {
            return String::new();
        }
        let mut k: usize = 0;
        while k < self.rules.len()
            invariant
                k <= self.rules@.len(),
                trimmed@ == trim_seq(raw_path@),
                trimmed@.len() > 0,
                map_with_rules(mapping_views(self.rules@), self.target_platform, self.running_inside_wsl, trimmed@, 0)
                    == map_with_rules(
                    mapping_views(self.rules@),
                    self.target_platform,
                    self.running_inside_wsl,
                    trimmed@,
                    k as int,
                ),
            decreases self.rules@.len() - k,
        {
            let rule = &self.rules[k];
            if self.rule_applies(rule) {
                match apply_rule(trimmed.as_slice(), rule) {
                    Some(mapped) => {
                        assert(map_with_rules(
                            mapping_views(self.rules@),
                            self.target_platform,
                            self.running_inside_wsl,
                            trimmed@,
                            k as int,
                        ) == mapped@);
                        return string_from_chars(mapped.as_slice());
                    },
                    None => {},
                }
            }
            k += 1;
        }
        string_from_chars(trimmed.as_slice())
    }

    /// Maps a command token when it contains a path separator.
    pub fn map_command_if_path(&self, command_token: &str) -> (out: String)
        ensures
            out@ == if command_token@.contains('/') || command_token@.contains('\\') {
                self.mapped(command_token@)
            } else {
                command_token@
            },
    {
        let chars = chars_of(command_token);
        if contains_char(chars.as_slice(), '/') || contains_char(chars.as_slice(), '\\') {
            return self.map_path(command_token);
        }
        crate::text::string_from_str(command_token)
    }

    /// Maps an argument when it looks like an absolute path.
    pub fn map_argument_if_path(&self, argument: &str) -> (out: String)
        ensures
            out@ == if looks_like_path_spec(argument@) {
                self.mapped(argument@)
            } else {
                argument@
            },
    {
        if looks_like_path(argument) {
            return self.map_path(argument);
        }
        crate::text::string_from_str(argument)
    }
}

/// Whether a token looks like an absolute path.
pub fn looks_like_path(value: &str) -> (b: bool)
    ensures
        b == looks_like_path_spec(value@),
{
    let s = chars_of(value);
    if s.len() > 0 && s[0] == '/' {
        return true;
    }
    let unc = ['\\', '\\'];
    let r = starts_with_chars(s.as_slice(), unc.as_slice());
    assert(unc@ =~= seq!['\\', '\\']);
    if r {
        return true;
    }
    s.len() >= 3 && (('a' <= s[0] && s[0] <= 'z') || ('A' <= s[0] && s[0] <= 'Z')) && s[1] == ':'
        && s[2] == '\\'
}

/// `s` with every `from` character replaced by `to`.
fn replace_chars(s: &[char], from: char, to: char) -> (out: Vec<char>)
    ensures
        out@ == replace_char(s@, from, to),
{
    let mut out: Vec<char> = Vec::new();
    let mut i: usize = 0;
    while i < s.len()
        invariant
            i <= s@.len(),
            out@ == replace_char(s@.take(i as int), from, to),
        decreases s@.len() - i,
    {
        let c = s[i];
        out.push(if c == from { to } else { c });
        assert(replace_char(s@.take(i + 1), from, to) =~= replace_char(s@.take(i as int), from, to).push(
            if c == from { to } else { c },
        ));
        i += 1;
    }
    assert(s@.take(i as int) =~= s@);
    out
}

fn apply_rule(input: &[char], rule: &PathMappingRule) -> (out: Option<Vec<char>>)
    ensures
        match out {
            Some(v) => apply_rule_spec(input@, rule.from@, rule.to@) == Some(v@),
            None => apply_rule_spec(input@, rule.from@, rule.to@) is None,
        },
{
    let from = chars_of(rule.from.as_str());
    let to = chars_of(rule.to.as_str());
    if !starts_with_chars(input, from.as_slice()) {
        return None;
    }
    let remainder = slice_range(input, from.len(), input.len());
    assert(remainder@ =~= input@.skip(from@.len() as int));
    let windows = contains_char(to.as_slice(), '\\');
    let converted = if windows {
        replace_chars(remainder.as_slice(), '/', '\\')
    } else {
        replace_chars(remainder.as_slice(), '\\', '/')
    };
    let sep = if windows { '\\' } else { '/' };
    let to_ends_sep = to.len() > 0 && to[to.len() - 1] == sep;
    let normalized = if to_ends_sep && converted.len() > 0 && converted[0] == sep {
        let v = slice_range(converted.as_slice(), 1, converted.len());
        assert(v@ =~= converted@.drop_first());
        v
    } else {
        converted
    };
    if normalized.len() == 0 {
        return Some(to);
    }
    let to_ends_any = to.len() > 0 && (to[to.len() - 1] == '/' || to[to.len() - 1] == '\\');
    let norm_starts_any = normalized[0] == '/' || normalized[0] == '\\';
    let mut out = to;
    let ghost to_view = out@;
    if !to_ends_any && !norm_starts_any {
        out.push(sep);
    }
    let ghost head = out@;
    let mut i: usize = 0;
    while i < normalized.len()
        invariant
            i <= normalized@.len(),
            out@ == head + normalized@.take(i as int),
        decreases normalized@.len() - i,
    {
        out.push(normalized[i]);
        assert(normalized@.take(i + 1) =~= normalized@.take(i as int).push(normalized@[i as int]));
        i += 1;
    }
    assert(normalized@.take(i as int) =~= normalized@);
    Some(out)
}

/// A copy of a path-mapping rule.
pub fn clone_rule(r: &PathMappingRule) -> (out: PathMappingRule)
    ensures
        out.from@ == r.from@,
        out.to@ == r.to@,
        out.platforms@ == r.platforms@,
{
    let mut platforms: Vec<Platform> = Vec::new();
    let mut i: usize = 0;
    while i < r.platforms.len()
        invariant
            i <= r.platforms@.len(),
            platforms@ == r.platforms@.take(i as int),
        decreases r.platforms@.len() - i,
    {
        platforms.push(r.platforms[i]);
        assert(r.platforms@.take(i + 1) =~= r.platforms@.take(i as int).push(r.platforms@[i as int]));
        i += 1;
    }
    assert(r.platforms@.take(i as int) =~= r.platforms@);
    PathMappingRule { from: r.from.clone(), to: r.to.clone(), platforms }
}

/// A copy of a list of path-mapping rules.
pub fn clone_rules(rules: &Vec<PathMappingRule>) -> (out: Vec<PathMappingRule>)
    ensures
        mapping_views(out@) == mapping_views(rules@),
{
    let mut out: Vec<PathMappingRule> = Vec::new();
    let mut i: usize = 0;
    while i < rules.len()
        invariant
            i <= rules@.len(),
            mapping_views(out@) == mapping_views(rules@.take(i as int)),
        decreases rules@.len() - i,
    {
        let ghost before = out@;
        let c = clone_rule(&rules[i]);
        out.push(c);
        proof {
            let r = rules@[i as int];
            let rv = MappingRuleView { from: r.from@, to: r.to@, platforms: r.platforms@ };
            assert(mapping_views(out@) =~= mapping_views(before).push(rv));
            assert(mapping_views(rules@.take(i + 1)) =~= mapping_views(rules@.take(i as int)).push(rv));
        }
        i += 1;
    }
    assert(rules@.take(i as int) =~= rules@);
    out
}

/// A matching rule replaces `from` by `to` and keeps the rest of the path,
/// its separators converted to the style of `to` (Windows when `to` holds a
/// backslash), joined to `to` by exactly one separator: one is put in when
/// neither side has one, a doubled one is dropped, and an empty rest leaves
/// `to` alone. So the rest is always a path component of its own, never glued
/// to the last component of `to`.
pub proof fn lemma_rule_joins_with_one_separator(input: Seq<char>, from: Seq<char>, to: Seq<char>)
    requires
        seq_starts_with(input, from),
    ensures
        ({
            let windows = to.contains('\\');
            let sep = if windows { '\\' } else { '/' };
            let rest = input.skip(from.len() as int);
            let converted = if windows {
                replace_char(rest, '/', '\\')
            } else {
                replace_char(rest, '\\', '/')
            };
            let to_ends = to.len() > 0 && (to.last() == '/' || to.last() == '\\');
            let rest_starts = converted.len() > 0 && (converted[0] == '/' || converted[0] == '\\');
            apply_rule_spec(input, from, to) matches Some(out) && {
                &&& out.len() >= to.len() && out.subrange(0, to.len() as int) == to
                &&& converted.len() == 0 ==> out == to
                &&& converted.len() > 0 && !to_ends && !rest_starts ==> out == to + seq![sep]
                    + converted
                &&& converted.len() > 0 && !to_ends && !rest_starts ==> out[to.len() as int] == sep
                    && out.skip(to.len() as int + 1) == converted
                &&& to.len() > 0 && to.last() == sep && converted.len() > 0 && converted[0] == sep
                    ==> out == to + converted.drop_first()
                &&& forall|k: int| 0 <= k < converted.len() ==> converted[k] != (if windows {
                    '/'
                } else {
                    '\\'
                })
            }
        }),
{
    let windows = to.contains('\\');
    let sep = if windows { '\\' } else { '/' };
    let rest = input.skip(from.len() as int);
    let converted = if windows {
        replace_char(rest, '/', '\\')
    } else {
        replace_char(rest, '\\', '/')
    };
    let out = apply_rule_spec(input, from, to)->0;
    let to_ends = to.len() > 0 && (to.last() == '/' || to.last() == '\\');
    let rest_starts = converted.len() > 0 && (converted[0] == '/' || converted[0] == '\\');
    if to.len() > 0 && to.last() == sep && converted.len() > 0 && converted[0] == sep {
        assert(out =~= to + converted.drop_first());
    } else if converted.len() > 0 && !to_ends && !rest_starts {
        assert(out =~= to + seq![sep] + converted);
        assert(out.skip(to.len() as int + 1) =~= converted);
    }
    assert(out.subrange(0, to.len() as int) =~= to);
}

} // verus!
