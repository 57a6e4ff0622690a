//! The execution policy: which commands run directly, which need an
//! operator's confirmation and which are denied.

use crate::config::{opt_view, AppConfig, CommandPolicyConfig, CommandRuleConfig, PolicyAction};
use crate::text::{
    ascii_lower, ascii_lower_seq, chars_equal, chars_of, lower_ascii_chars, slice_range,
    string_from_chars, trim_bounds, trim_seq, trimmed_chars,
};
use vstd::prelude::*;

verus! {

/// What the policy decides for a command.
#[derive(Debug, Clone, Copy, PartialEq, Eq, Structural)]
pub enum PolicyDecision {
    Allow,
    RequireConfirmation,
    Deny,
}

/// The decision and the working directory that the matched policy supplies.
#[derive(Debug, Clone)]
pub struct PolicyResult {
    pub decision: PolicyDecision,
    pub default_working_directory: Option<String>,
}

/// A policy rule after normalisation, as a mathematical value.
pub struct RuleView {
    pub command: Seq<char>,
    pub targets: Seq<Seq<char>>,
    pub args_prefix: Seq<Seq<char>>,
    pub action: PolicyAction,
    pub default_working_directory: Option<Seq<char>>,
}

#[derive(Debug, Clone)]
struct CompiledExecutionRule {
    command: Vec<char>,
    targets: Vec<String>,
    args_prefix: Vec<Vec<char>>,
    action: PolicyAction,
    default_working_directory: Option<String>,
}

/// Evaluates commands against the configured command policies.
#[derive(Debug, Clone)]
pub struct PolicyEngine {
    default_action: PolicyAction,
    default_working_directory: Option<String>,
    rules: Vec<CompiledExecutionRule>,
}

// ---------------------------------------------------------------------------
// Normalisation
// ---------------------------------------------------------------------------

/// Whether `s` ends with `suffix`, comparing ASCII letters case-insensitively.
pub open spec fn ends_with_ignore_case(s: Seq<char>, suffix: Seq<char>) -> bool {
    suffix.len() <= s.len() && ascii_lower_seq(s.skip(s.len() - suffix.len())) == ascii_lower_seq(
        suffix,
    )
}

/// `s` without the first Windows executable suffix (in the order `.exe`,
/// `.cmd`, `.bat`, `.ps1`) that it ends with.
pub open spec fn strip_windows_suffix_spec(s: Seq<char>) -> Seq<char> {
    if ends_with_ignore_case(s, ".exe"@) {
        s.take(s.len() - 4)
    } else if ends_with_ignore_case(s, ".cmd"@) {
        s.take(s.len() - 4)
    } else if ends_with_ignore_case(s, ".bat"@) {
        s.take(s.len() - 4)
    } else if ends_with_ignore_case(s, ".ps1"@) {
        s.take(s.len() - 4)
    } else {
        s
    }
}

/// Whether `c` separates path components.
pub open spec fn is_path_separator(c: char) -> bool {
    c == '/' || c == '\\'
}

/// The part of `s` after its last path separator.
pub open spec fn last_path_component(s: Seq<char>) -> Seq<char>
    decreases s.len(),
{
    if s.len() == 0 {
        s
    } else if is_path_separator(s.last()) {
        Seq::empty()
    } else {
        last_path_component(s.drop_last()).push(s.last())
    }
}

/// The policy key of a command token: its last path component, without a
/// Windows executable suffix, ASCII lower-cased; empty for a blank token.
pub open spec fn normalize_command_spec(token: Seq<char>) -> Seq<char> {
    let trimmed = trim_seq(token);
    if trimmed.len() == 0 {
        Seq::empty()
    } else {
        ascii_lower_seq(strip_windows_suffix_spec(last_path_component(trimmed)))
    }
}

/// An argument token as policies compare it: trimmed and ASCII lower-cased.
pub open spec fn normalize_token_spec(token: Seq<char>) -> Seq<char> {
    ascii_lower_seq(trim_seq(token))
}

/// Whether `s` ends with `suffix`, ignoring ASCII case.
fn ends_with_ignore_case_exec(s: &[char], suffix: &str) -> (b: bool)
    ensures
        b == ends_with_ignore_case(s@, suffix@),
{
    let suffix = chars_of(suffix);
    if suffix.len() > s.len() {
        return false;
    }
    let tail = slice_range(s, s.len() - suffix.len(), s.len());
    assert(tail@ =~= s@.skip(s@.len() - suffix@.len()));
    let a = lower_ascii_chars(tail.as_slice());
    let b = lower_ascii_chars(suffix.as_slice());
    chars_equal(a.as_slice(), b.as_slice())
}

/// Removes a Windows executable suffix.
fn strip_windows_suffix(s: &[char]) -> (out: Vec<char>)
    ensures
        out@ == strip_windows_suffix_spec(s@),
{
    if ends_with_ignore_case_exec(s, ".exe") || ends_with_ignore_case_exec(s, ".cmd")
        || ends_with_ignore_case_exec(s, ".bat") || ends_with_ignore_case_exec(s, ".ps1") {
        proof {
            reveal_strlit(".exe");
            reveal_strlit(".cmd");
            reveal_strlit(".bat");
            reveal_strlit(".ps1");
        }
        slice_range(s, 0, s.len() - 4)
    } else {
        slice_range(s, 0, s.len())
    }
}

proof fn lemma_last_component_suffix(s: Seq<char>, start: int)
    requires
        0 <= start <= s.len(),
        forall|k: int| start <= k < s.len() ==> !is_path_separator(s[k]),
        start == 0 || is_path_separator(s[start - 1]),
    ensures
        last_path_component(s) == s.subrange(start, s.len() as int),
    decreases s.len(),
{
    if s.len() == 0 {
    } else if start == s.len() {
    } else {
        lemma_last_component_suffix(s.drop_last(), start);
        assert(s.drop_last().subrange(start, s.len() - 1).push(s.last()) =~= s.subrange(
            start,
            s.len() as int,
        ));
    }
}

/// The part of `s` after its last path separator.
fn last_component(s: &[char]) -> (out: Vec<char>)
    ensures
        out@ == last_path_component(s@),
{
    let mut start = s.len();
    while start > 0 && !(s[start - 1] == '/' || s[start - 1] == '\\')
        invariant
            start <= s@.len(),
            forall|k: int| start <= k < s@.len() ==> !is_path_separator(s@[k]),
        decreases start,
    {
        start -= 1;
    }
    proof {
        lemma_last_component_suffix(s@, start as int);
    }
    slice_range(s, start, s.len())
}

/// The policy key of a command token.
pub fn normalize_command(command_token: &str) -> (out: String)
    ensures
        out@ == normalize_command_spec(command_token@),
{
    let trimmed = trimmed_chars(command_token);
    if trimmed.len() == 0 {
        return String::new();
    }
    let name = last_component(trimmed.as_slice());
    let stripped = strip_windows_suffix(name.as_slice());
    let lowered = lower_ascii_chars(stripped.as_slice());
    string_from_chars(lowered.as_slice())
}

fn normalize_command_chars(command_token: &str) -> (out: Vec<char>)
    ensures
        out@ == normalize_command_spec(command_token@),
{
    let trimmed = trimmed_chars(command_token);
    if trimmed.len() == 0 {
        return Vec::new();
    }
    let name = last_component(trimmed.as_slice());
    let stripped = strip_windows_suffix(name.as_slice());
    lower_ascii_chars(stripped.as_slice())
}

fn normalize_subcommand_token(value: &str) -> (out: Vec<char>)
    ensures
        out@ == normalize_token_spec(value@),
{
    let trimmed = trimmed_chars(value);
    lower_ascii_chars(trimmed.as_slice())
}

// ---------------------------------------------------------------------------
// Compilation
// ---------------------------------------------------------------------------

/// The working-directory view of an optional string.
pub open spec fn wd_view(v: Option<String>) -> Option<Seq<char>> {
    opt_view(v)
}

/// The rule that a command policy contributes for the command itself.
pub open spec fn base_rule(p: CommandPolicyConfig) -> RuleView {
    RuleView {
        command: normalize_command_spec(p.command@),
        targets: crate::text::views_of(p.targets@),
        args_prefix: Seq::empty(),
        action: p.action,
        default_working_directory: wd_view(p.default_working_directory),
    }
}

/// The rule that a nested rule of command policy `p` contributes.
pub open spec fn nested_rule(p: CommandPolicyConfig, r: CommandRuleConfig) -> RuleView {
    RuleView {
        command: normalize_command_spec(p.command@),
        targets: crate::text::views_of(p.targets@),
        args_prefix: r.args_prefix@.map_values(|t: String| normalize_token_spec(t@)),
        action: r.action,
        default_working_directory: if r.default_working_directory is Some {
            wd_view(r.default_working_directory)
        } else {
            wd_view(p.default_working_directory)
        },
    }
}

/// The rules of one command policy: the command rule, then its nested rules.
pub open spec fn policy_rules(p: CommandPolicyConfig) -> Seq<RuleView> {
    seq![base_rule(p)] + p.rules@.map_values(|r: CommandRuleConfig| nested_rule(p, r))
}

/// All rules of the configured command policies, in configuration order.
pub open spec fn compiled_rules(commands: Seq<CommandPolicyConfig>) -> Seq<RuleView>
    decreases commands.len(),
{
    if commands.len() == 0 {
        Seq::empty()
    } else {
        compiled_rules(commands.drop_last()) + policy_rules(commands.last())
    }
}

// ---------------------------------------------------------------------------
// Evaluation
// ---------------------------------------------------------------------------

/// Whether `pattern` is a prefix of `input`.
pub open spec fn prefix_matches(pattern: Seq<Seq<char>>, input: Seq<Seq<char>>) -> bool {
    pattern.len() <= input.len() && forall|k: int| 0 <= k < pattern.len() ==> #[trigger] input[k] == pattern[k]
}

/// Whether the pattern from index `i` matches the text from index `j`; a
/// `*` in the pattern matches any run of characters, every other character
/// itself.
pub open spec fn glob_from(pattern: Seq<char>, text: Seq<char>, i: int, j: int) -> bool
    decreases pattern.len() - i + text.len() - j,
{
    if i < 0 || j < 0 || i > pattern.len() || j > text.len() {
        false
    } else if i == pattern.len() {
        j == text.len()
    } else if pattern[i] == '*' {
        glob_from(pattern, text, i + 1, j) || (j < text.len() && glob_from(pattern, text, i, j + 1))
    } else {
        j < text.len() && text[j] == pattern[i] && glob_from(pattern, text, i + 1, j + 1)
    }
}

/// Whether a command pattern matches a command key.
pub open spec fn command_matches(pattern: Seq<char>, key: Seq<char>) -> bool {
    glob_from(pattern, key, 0, 0)
}

/// Whether a command pattern names one command exactly (holds no `*`).
pub open spec fn is_exact(pattern: Seq<char>) -> bool {
    !pattern.contains('*')
}

/// Whether a rule limited to `targets` applies on `target`: an empty list
/// applies everywhere.
pub open spec fn applies_to_target(targets: Seq<Seq<char>>, target: Seq<char>) -> bool {
    targets.len() == 0 || targets.contains(target)
}

/// Whether `rule` applies to the normalised command and arguments on `target`.
pub open spec fn rule_matches(rule: RuleView, key: Seq<char>, args: Seq<Seq<char>>, target: Seq<char>) -> bool {
    command_matches(rule.command, key) && applies_to_target(rule.targets, target) && prefix_matches(
        rule.args_prefix,
        args,
    )
}

/// Whether rule `a` is at least as specific as rule `b`: an exact command
/// over a pattern, then the longer argument prefix.
pub open spec fn at_least_as_specific(a: RuleView, b: RuleView) -> bool {
    if is_exact(a.command) != is_exact(b.command) {
        is_exact(a.command)
    } else {
        b.args_prefix.len() <= a.args_prefix.len()
    }
}

/// The index of the most specific matching rule among the first `n`, the
/// later one among equally specific rules.
pub open spec fn best_rule(
    rules: Seq<RuleView>,
    key: Seq<char>,
    args: Seq<Seq<char>>,
    target: Seq<char>,
    n: int,
) -> Option<int>
    decreases n,
{
    if n <= 0 {
        None
    } else {
        let before = best_rule(rules, key, args, target, n - 1);
        if rule_matches(rules[n - 1], key, args, target) && (before is None || at_least_as_specific(
            rules[n - 1],
            rules[before->0],
        )) {
            Some(n - 1)
        } else {
            before
        }
    }
}

/// The decision an action maps to.
pub open spec fn decision_of(action: PolicyAction) -> PolicyDecision {
    match action {
        PolicyAction::Allow => PolicyDecision::Allow,
        PolicyAction::Deny => PolicyDecision::Deny,
        PolicyAction::Confirm => PolicyDecision::RequireConfirmation,
    }
}

impl CompiledExecutionRule {
    spec fn view_rule(&self) -> RuleView {
        RuleView {
            command: self.command@,
            targets: crate::text::views_of(self.targets@),
            args_prefix: self.args_prefix@.map_values(|t: Vec<char>| t@),
            action: self.action,
            default_working_directory: wd_view(self.default_working_directory),
        }
    }
}

impl PolicyEngine {
    /// The engine's rules as mathematical values, in evaluation order.
    pub closed spec fn rule_views(&self) -> Seq<RuleView> {
        self.rules@.map_values(|r: CompiledExecutionRule| r.view_rule())
    }

    /// The action used when no rule matches.
    pub closed spec fn fallback_action(&self) -> PolicyAction {
        self.default_action
    }

    /// The working directory used when the matched rule supplies none.
    pub closed spec fn fallback_working_directory(&self) -> Option<Seq<char>> {
        wd_view(self.default_working_directory)
    }

    /// The index of the rule that decides a command on `target`.
    pub open spec fn selected_rule(&self, command_token: Seq<char>, arguments: Seq<String>, target: Seq<char>) -> Option<
        int,
    > {
        best_rule(
            self.rule_views(),
            normalize_command_spec(command_token),
            arguments.map_values(|a: String| normalize_token_spec(a@)),
            target,
            self.rule_views().len() as int,
        )
    }

    /// The decision for a command on `target`.
    pub open spec fn decision_for(&self, command_token: Seq<char>, arguments: Seq<String>, target: Seq<char>) -> PolicyDecision {
        match self.selected_rule(command_token, arguments, target) {
            Some(i) => decision_of(self.rule_views()[i].action),
            None => decision_of(self.fallback_action()),
        }
    }

    /// The default working directory for a command on `target`.
    pub open spec fn working_directory_for(
        &self,
        command_token: Seq<char>,
        arguments: Seq<String>,
        target: Seq<char>,
    ) -> Option<Seq<char>> {
        match self.selected_rule(command_token, arguments, target) {
            Some(i) => if self.rule_views()[i].default_working_directory is Some {
                self.rule_views()[i].default_working_directory
            } else {
                self.fallback_working_directory()
            },
            None => self.fallback_working_directory(),
        }
    }
}

impl PolicyEngine {
    /// The rule that decides a command whose arguments are given by view.
    pub open spec fn selected_rule_views(
        &self,
        command_token: Seq<char>,
        arguments: Seq<Seq<char>>,
        target: Seq<char>,
    ) -> Option<int> {
        best_rule(
            self.rule_views(),
            normalize_command_spec(command_token),
            arguments.map_values(|a: Seq<char>| normalize_token_spec(a)),
            target,
            self.rule_views().len() as int,
        )
    }

    /// The decision for a command whose arguments are given by view.
    pub open spec fn decision_for_views(
        &self,
        command_token: Seq<char>,
        arguments: Seq<Seq<char>>,
        target: Seq<char>,
    ) -> PolicyDecision {
        match self.selected_rule_views(command_token, arguments, target) {
            Some(i) => decision_of(self.rule_views()[i].action),
            None => decision_of(self.fallback_action()),
        }
    }

    /// The default working directory for a command whose arguments are given by view.
    pub open spec fn working_directory_for_views(
        &self,
        command_token: Seq<char>,
        arguments: Seq<Seq<char>>,
        target: Seq<char>,
    ) -> Option<Seq<char>> {
        match self.selected_rule_views(command_token, arguments, target) {
            Some(i) => if self.rule_views()[i].default_working_directory is Some {
                self.rule_views()[i].default_working_directory
            } else {
                self.fallback_working_directory()
            },
            None => self.fallback_working_directory(),
        }
    }

    /// Deciding by the arguments or by their views gives the same.
    pub proof fn lemma_decision_by_views(&self, command_token: Seq<char>, arguments: Seq<String>, target: Seq<char>)
        ensures
            self.decision_for(command_token, arguments, target) == self.decision_for_views(
                command_token,
                crate::command_parser::string_views(arguments),
                target,
            ),
            self.working_directory_for(command_token, arguments, target) == self.working_directory_for_views(
                command_token,
                crate::command_parser::string_views(arguments),
                target,
            ),
    {
        assert(arguments.map_values(|a: String| normalize_token_spec(a@)) =~= crate::command_parser::string_views(
            arguments,
        ).map_values(|a: Seq<char>| normalize_token_spec(a)));
    }
}

/// The views of a vector of character vectors.
pub open spec fn token_views(v: Seq<Vec<char>>) -> Seq<Seq<char>> {
    v.map_values(|t: Vec<char>| t@)
}

fn clone_opt_string(v: &Option<String>) -> (out: Option<String>)
    ensures
        opt_view(out) == opt_view(*v),
{
    match v {
        Some(s) => Some(s.clone()),
        None => None,
    }
}

/// Copies a list of names.
fn copy_names(v: &Vec<String>) -> (out: Vec<String>)
    ensures
        crate::text::views_of(out@) == crate::text::views_of(v@),
{
    let mut out: Vec<String> = Vec::new();
    let mut i: usize = 0;
    while i < v.len()
        invariant
            i <= v@.len(),
            crate::text::views_of(out@) == crate::text::views_of(v@.take(i as int)),
        decreases v@.len() - i,
    {
        out.push(v[i].clone());
        proof {
            assert(crate::text::views_of(v@.take(i + 1)) =~= crate::text::views_of(v@.take(i as int)).push(
                v@[i as int]@,
            ));
            assert(crate::text::views_of(out@) =~= crate::text::views_of(v@.take(i + 1)));
        }
        i += 1;
    }
    assert(v@.take(i as int) =~= v@);
    out
}

/// Whether `pattern` matches `text`, a `*` matching any run of characters.
pub fn glob_match(pattern: &[char], text: &[char]) -> (b: bool)
    ensures
        b == glob_from(pattern@, text@, 0, 0),
{
    let n = pattern.len();
    let m = text.len();
    let mut next: Vec<bool> = Vec::new();
    let mut j: usize = 0;
    while j < m
        invariant
            j <= m,
            m == text@.len(),
            n == pattern@.len(),
            next@.len() == j,
            forall|k: int| 0 <= k < j ==> next@[k] == glob_from(pattern@, text@, n as int, k),
        decreases m - j,
    {
        next.push(false);
        j += 1;
    }
    next.push(true);
    let mut i: usize = n;
    while i > 0
        invariant
            i <= n,
            m == text@.len(),
            n == pattern@.len(),
            next@.len() == m + 1,
            forall|k: int| 0 <= k <= m ==> next@[k] == glob_from(pattern@, text@, i as int, k),
        decreases i,
    {
        let c = pattern[i - 1];
        let mut cur: Vec<bool> = Vec::new();
        let mut k: usize = 0;
        while k < m
            invariant
                k <= m,
                cur@.len() == k,
            decreases m - k,
        {
            cur.push(false);
            k += 1;
        }
        cur.push(false);
        let mut jj: usize = cur.len();
        while jj > 0
            invariant
                jj <= m + 1,
                i >= 1,
                i <= n,
                m == text@.len(),
                n == pattern@.len(),
                c == pattern@[i - 1],
                cur@.len() == m + 1,
                next@.len() == m + 1,
                forall|k: int| 0 <= k <= m ==> next@[k] == glob_from(pattern@, text@, i as int, k),
                forall|k: int| jj <= k <= m ==> cur@[k] == glob_from(pattern@, text@, i - 1, k),
            decreases jj,
        {
            let x = jj - 1;
            let v = if c == '*' {
                next[x] || (x < m && cur[x + 1])
            } else {
                x < m && text[x] == c && next[x + 1]
            };
            cur.set(x, v);
            jj -= 1;
        }
        next = cur;
        i -= 1;
    }
    next[0]
}

fn compile_nested_rule(p: &CommandPolicyConfig, r: &CommandRuleConfig) -> (out: CompiledExecutionRule)
    ensures
        out.view_rule() == nested_rule(*p, *r),
{
    let mut args_prefix: Vec<Vec<char>> = Vec::new();
    let mut k: usize = 0;
    while k < r.args_prefix.len()
        invariant
            k <= r.args_prefix@.len(),
            token_views(args_prefix@) == r.args_prefix@.take(k as int).map_values(
                |t: String| normalize_token_spec(t@),
            ),
        decreases r.args_prefix@.len() - k,
    {
        let token = normalize_subcommand_token(r.args_prefix[k].as_str());
        args_prefix.push(token);
        assert(r.args_prefix@.take(k + 1).map_values(|t: String| normalize_token_spec(t@))
            =~= r.args_prefix@.take(k as int).map_values(|t: String| normalize_token_spec(t@)).push(
            normalize_token_spec(r.args_prefix@[k as int]@),
        ));
        assert(token_views(args_prefix@) =~= token_views(args_prefix@.drop_last()).push(
            args_prefix@.last()@,
        ));
        k += 1;
    }
    assert(r.args_prefix@.take(k as int) =~= r.args_prefix@);
    let wd = if r.default_working_directory.is_some() {
        clone_opt_string(&r.default_working_directory)
    } else {
        clone_opt_string(&p.default_working_directory)
    };
    let out = CompiledExecutionRule {
        command: normalize_command_chars(p.command.as_str()),
        targets: copy_names(&p.targets),
        args_prefix,
        action: r.action,
        default_working_directory: wd,
    };
    assert(out.view_rule().args_prefix =~= nested_rule(*p, *r).args_prefix);
    out
}

fn compile_command_policies(commands: &Vec<CommandPolicyConfig>) -> (out: Vec<CompiledExecutionRule>)
    ensures
        out@.map_values(|r: CompiledExecutionRule| r.view_rule()) == compiled_rules(commands@),
{
    let mut rules: Vec<CompiledExecutionRule> = Vec::new();
    let mut i: usize = 0;
    while i < commands.len()
        invariant
            i <= commands@.len(),
            rules@.map_values(|r: CompiledExecutionRule| r.view_rule()) == compiled_rules(
                commands@.take(i as int),
            ),
        decreases commands@.len() - i,
    {
        let p = &commands[i];
        let ghost before = rules@.map_values(|r: CompiledExecutionRule| r.view_rule());
        let base = CompiledExecutionRule {
            command: normalize_command_chars(p.command.as_str()),
            targets: copy_names(&p.targets),
            args_prefix: Vec::new(),
            action: p.action,
            default_working_directory: clone_opt_string(&p.default_working_directory),
        };
        assert(base.view_rule().args_prefix =~= Seq::<Seq<char>>::empty());
        rules.push(base);
        let mut k: usize = 0;
        while k < p.rules.len()
            invariant
                k <= p.rules@.len(),
                p == &commands@[i as int],
                rules@.map_values(|r: CompiledExecutionRule| r.view_rule()) == before + seq![
                    base_rule(*p),
                ] + p.rules@.take(k as int).map_values(|r: CommandRuleConfig| nested_rule(*p, r)),
            decreases p.rules@.len() - k,
        {
            let rule = compile_nested_rule(p, &p.rules[k]);
            let ghost mid = rules@.map_values(|r: CompiledExecutionRule| r.view_rule());
            rules.push(rule);
            assert(rules@.map_values(|r: CompiledExecutionRule| r.view_rule()) =~= mid.push(
                nested_rule(*p, p.rules@[k as int]),
            ));
            assert(p.rules@.take(k + 1).map_values(|r: CommandRuleConfig| nested_rule(*p, r))
                =~= p.rules@.take(k as int).map_values(|r: CommandRuleConfig| nested_rule(*p, r)).push(
                nested_rule(*p, p.rules@[k as int]),
            ));
            k += 1;
        }
        proof {
            assert(p.rules@.take(k as int) =~= p.rules@);
            assert(commands@.take(i + 1).drop_last() =~= commands@.take(i as int));
            assert(commands@.take(i + 1).last() == commands@[i as int]);
            assert(rules@.map_values(|r: CompiledExecutionRule| r.view_rule()) =~= before
                + policy_rules(commands@[i as int]));
        }
        i += 1;
    }
    assert(commands@.take(i as int) =~= commands@);
    rules
}

/// Whether a rule limited to `targets` applies on `target`.
fn target_listed(targets: &Vec<String>, target: &str) -> (b: bool)
    ensures
        b == applies_to_target(crate::text::views_of(targets@), target@),
{
    if targets.len() == 0 {
        return true;
    }
    let mut i: usize = 0;
    while i < targets.len()
        invariant
            i <= targets@.len(),
            forall|k: int| 0 <= k < i ==> targets@[k]@ != target@,
        decreases targets@.len() - i,
    {
        if crate::text::str_equal(targets[i].as_str(), target) {
            assert(crate::text::views_of(targets@)[i as int] == target@);
            return true;
        }
        i += 1;
    }
    assert(!crate::text::views_of(targets@).contains(target@)) by {
        if crate::text::views_of(targets@).contains(target@) {
            let k = choose|k: int| 0 <= k < targets@.len() && crate::text::views_of(targets@)[k] == target@;
            assert(targets@[k]@ == target@);
        }
    }
    false
}

fn prefix_match(pattern: &Vec<Vec<char>>, input: &Vec<Vec<char>>) -> (b: bool)
    ensures
        b == prefix_matches(token_views(pattern@), token_views(input@)),
{
    if pattern.len() > input.len() {
        return false;
    }
    let mut k: usize = 0;
    while k < pattern.len()
        invariant
            k <= pattern@.len() <= input@.len(),
            forall|m: int| 0 <= m < k ==> #[trigger] token_views(input@)[m] == token_views(pattern@)[m],
        decreases pattern@.len() - k,
    {
        if !chars_equal(input[k].as_slice(), pattern[k].as_slice()) {
            assert(token_views(input@)[k as int] != token_views(pattern@)[k as int]);
            return false;
        }
        k += 1;
    }
    true
}

impl PolicyEngine {
    /// Builds the engine from the configured command policies.
    pub fn new(config: AppConfig) -> (engine: Self)
        ensures
            engine.rule_views() == compiled_rules(config.execution.commands@),
            engine.fallback_action() == config.execution.default_action,
            engine.fallback_working_directory() == wd_view(config.execution.default_working_directory),
    {
        let rules = compile_command_policies(&config.execution.commands);
        PolicyEngine {
            default_action: config.execution.default_action,
            default_working_directory: config.execution.default_working_directory,
            rules,
        }
    }

    /// Decides a command on the local target, `host`.
    pub fn evaluate(&self, command_token: &str, command_arguments: &[String]) -> (r: PolicyResult)
        ensures
            r.decision == self.decision_for(command_token@, command_arguments@, "host"@),
            wd_view(r.default_working_directory) == self.working_directory_for(
                command_token@,
                command_arguments@,
                "host"@,
            ),
    {
        self.evaluate_for_target(command_token, command_arguments, crate::config::DEFAULT_EXECUTION_SERVER)
    }

    /// Decides a command on `target`: among the rules that apply there, an
    /// exact command beats a `*` pattern, then the longest argument prefix
    /// wins, then the rule listed last; the default action applies when no
    /// rule does.
    pub fn evaluate_for_target(&self, command_token: &str, command_arguments: &[String], target: &str) -> (r:
        PolicyResult)
        ensures
            r.decision == self.decision_for(command_token@, command_arguments@, target@),
            wd_view(r.default_working_directory) == self.working_directory_for(
                command_token@,
                command_arguments@,
                target@,
            ),
    {
        let key = normalize_command_chars(command_token);
        let mut args: Vec<Vec<char>> = Vec::new();
        let mut k: usize = 0;
        while k < command_arguments.len()
            invariant
                k <= command_arguments@.len(),
                token_views(args@) == command_arguments@.take(k as int).map_values(
                    |a: String| normalize_token_spec(a@),
                ),
            decreases command_arguments@.len() - k,
        {
            let token = normalize_subcommand_token(command_arguments[k].as_str());
            args.push(token);
            assert(command_arguments@.take(k + 1).map_values(|a: String| normalize_token_spec(a@))
                =~= command_arguments@.take(k as int).map_values(
                |a: String| normalize_token_spec(a@),
            ).push(normalize_token_spec(command_arguments@[k as int]@)));
            assert(token_views(args@) =~= token_views(args@.drop_last()).push(args@.last()@));
            k += 1;
        }
        assert(command_arguments@.take(k as int) =~= command_arguments@);
        let ghost views = self.rule_views();
        let ghost arg_views = command_arguments@.map_values(|a: String| normalize_token_spec(a@));
        let mut best: Option<usize> = None;
        let mut j: usize = 0;
        while j < self.rules.len()
            invariant
                j <= self.rules@.len(),
                views == self.rule_views(),
                views.len() == self.rules@.len(),
                key@ == normalize_command_spec(command_token@),
                token_views(args@) == arg_views,
                match best {
                    Some(b) => best_rule(views, key@, arg_views, target@, j as int) == Some(b as int) && b < j,
                    None => best_rule(views, key@, arg_views, target@, j as int) is None,
                },
            decreases self.rules@.len() - j,
        {
            let rule = &self.rules[j];
            assert(views[j as int] == rule.view_rule());
            let matches = glob_match(rule.command.as_slice(), key.as_slice()) && target_listed(
                &rule.targets,
                target,
            ) && prefix_match(&rule.args_prefix, &args);
            let better = match best {
                None => true,
                Some(b) => {
                    assert(views[b as int] == self.rules@[b as int].view_rule());
                    let exact_new = !crate::text::contains_char(rule.command.as_slice(), '*');
                    let exact_old = !crate::text::contains_char(self.rules[b].command.as_slice(), '*');
                    if exact_new != exact_old {
                        exact_new
                    } else {
                        self.rules[b].args_prefix.len() <= rule.args_prefix.len()
                    }
                },
            };
            if matches && better {
                best = Some(j);
            }
            j += 1;
        }
        match best {
            Some(b) => {
                let rule = &self.rules[b];
                assert(views[b as int] == rule.view_rule());
                let decision = match rule.action {
                    PolicyAction::Allow => PolicyDecision::Allow,
                    PolicyAction::Deny => PolicyDecision::Deny,
                    PolicyAction::Confirm => PolicyDecision::RequireConfirmation,
                };
                let wd = if rule.default_working_directory.is_some() {
                    clone_opt_string(&rule.default_working_directory)
                } else {
                    clone_opt_string(&self.default_working_directory)
                };
                PolicyResult { decision, default_working_directory: wd }
            },
            None => {
                let decision = match self.default_action {
                    PolicyAction::Allow => PolicyDecision::Allow,
                    PolicyAction::Deny => PolicyDecision::Deny,
                    PolicyAction::Confirm => PolicyDecision::RequireConfirmation,
                };
                PolicyResult {
                    decision,
                    default_working_directory: clone_opt_string(&self.default_working_directory),
                }
            },
        }
    }
}

/// The rule that decides a command is the most specific one that applies on
/// the target: it matches, every other matching rule is less specific (a
/// pattern where it names the command exactly, or else a shorter argument
/// prefix), or equally specific and listed before it. When no rule is
/// selected, no rule matches.
pub proof fn lemma_selected_rule_is_most_specific(
    rules: Seq<RuleView>,
    key: Seq<char>,
    args: Seq<Seq<char>>,
    target: Seq<char>,
    n: int,
)
    requires
        0 <= n <= rules.len(),
    ensures
        match best_rule(rules, key, args, target, n) {
            Some(i) => {
                &&& 0 <= i < n
                &&& rule_matches(rules[i], key, args, target)
                &&& forall|j: int|
                    0 <= j < n && #[trigger] rule_matches(rules[j], key, args, target) ==> at_least_as_specific(
                        rules[i],
                        rules[j],
                    ) && (at_least_as_specific(rules[j], rules[i]) ==> j <= i)
            },
            None => forall|j: int| 0 <= j < n ==> !#[trigger] rule_matches(rules[j], key, args, target),
        },
    decreases n,
{
    if n > 0 {
        lemma_selected_rule_is_most_specific(rules, key, args, target, n - 1);
    }
}

/// A rule limited to other targets never decides a command on `target`.
pub proof fn lemma_rules_for_other_targets_do_not_apply(
    rules: Seq<RuleView>,
    key: Seq<char>,
    args: Seq<Seq<char>>,
    target: Seq<char>,
    n: int,
)
    requires
        0 <= n <= rules.len(),
    ensures
        best_rule(rules, key, args, target, n) matches Some(i) ==> applies_to_target(rules[i].targets, target),
{
    lemma_selected_rule_is_most_specific(rules, key, args, target, n);
}

/// Exact command rules take precedence over `*` patterns: whenever a rule
/// naming the command exactly matches, the selected rule names it exactly,
/// whatever the argument prefixes of matching patterns. Among matching rules
/// equally exact, the selected one has the longest argument prefix, and among
/// those the one listed last wins.
pub proof fn lemma_exact_rules_take_precedence(
    rules: Seq<RuleView>,
    key: Seq<char>,
    args: Seq<Seq<char>>,
    target: Seq<char>,
    n: int,
)
    requires
        0 <= n <= rules.len(),
    ensures
        (exists|j: int| 0 <= j < n && #[trigger] rule_matches(rules[j], key, args, target)) ==> (best_rule(
            rules,
            key,
            args,
            target,
            n,
        ) matches Some(i) && 0 <= i < n && rule_matches(rules[i], key, args, target)),
        best_rule(rules, key, args, target, n) matches Some(i) ==> forall|j: int|
            0 <= j < n && #[trigger] rule_matches(rules[j], key, args, target) ==> {
                &&& is_exact(rules[j].command) ==> is_exact(rules[i].command)
                &&& is_exact(rules[j].command) == is_exact(rules[i].command) ==> rules[j].args_prefix.len()
                    <= rules[i].args_prefix.len()
                &&& is_exact(rules[j].command) == is_exact(rules[i].command) && rules[j].args_prefix.len()
                    == rules[i].args_prefix.len() ==> j <= i
            },
{
    lemma_selected_rule_is_most_specific(rules, key, args, target, n);
    if best_rule(rules, key, args, target, n) is Some {
        let i = best_rule(rules, key, args, target, n)->0;
        assert forall|j: int| 0 <= j < n && #[trigger] rule_matches(rules[j], key, args, target) implies {
            &&& is_exact(rules[j].command) ==> is_exact(rules[i].command)
            &&& is_exact(rules[j].command) == is_exact(rules[i].command) ==> rules[j].args_prefix.len()
                <= rules[i].args_prefix.len()
            &&& is_exact(rules[j].command) == is_exact(rules[i].command) && rules[j].args_prefix.len()
                == rules[i].args_prefix.len() ==> j <= i
        } by {
            assert(at_least_as_specific(rules[i], rules[j]));
        }
    }
}

/// For an engine: when some rule naming the command exactly applies, the
/// decision is the action of a matching exact rule; a `*` rule decides only
/// when no exact rule matches.
pub proof fn lemma_engine_exact_rules_take_precedence(
    engine: PolicyEngine,
    command_token: Seq<char>,
    arguments: Seq<String>,
    target: Seq<char>,
)
    ensures
        ({
            let rules = engine.rule_views();
            let key = normalize_command_spec(command_token);
            let args = arguments.map_values(|a: String| normalize_token_spec(a@));
            (exists|j: int|
                0 <= j < rules.len() && #[trigger] rule_matches(rules[j], key, args, target) && is_exact(
                    rules[j].command,
                )) ==> (engine.selected_rule(command_token, arguments, target) matches Some(i) && 0 <= i
                < rules.len() && rule_matches(rules[i], key, args, target) && is_exact(rules[i].command)
                && engine.decision_for(command_token, arguments, target) == decision_of(rules[i].action))
        }),
{
    let rules = engine.rule_views();
    let key = normalize_command_spec(command_token);
    let args = arguments.map_values(|a: String| normalize_token_spec(a@));
    lemma_exact_rules_take_precedence(rules, key, args, target, rules.len() as int);
}

} // verus!
