//! The unified severity/target filter: a mapping from target-name prefixes
//! to minimum severities, with a default for unmatched targets. The most
//! specific (longest) matching prefix decides; a later rule for the same
//! prefix overrides the earlier one.

use vstd::prelude::*;

use crate::{LogLevel, spec_level_number};
use crate::text::to_chars;

verus! {

/// `p` is a prefix of `t`.
pub open spec fn is_prefix_of(p: Seq<char>, t: Seq<char>) -> bool {
    p.len() <= t.len() && t.take(p.len() as int) == p
}

/// The winning rule among the first `n`, as (prefix length, level): a rule
/// whose prefix matches the target replaces the running winner when its
/// prefix is at least as long, so the last rule of maximal matching prefix
/// length wins — a repeated rule for one prefix overrides the earlier one.
pub open spec fn best_match(
    rules: Seq<(Seq<char>, LogLevel)>,
    target: Seq<char>,
    n: int,
) -> Option<(int, LogLevel)>
    decreases n,
{
    if n <= 0 {
        None
    } else {
        let prev = best_match(rules, target, n - 1);
        let rule = rules[n - 1];
        if is_prefix_of(rule.0, target) {
            match prev {
                None => Some((rule.0.len() as int, rule.1)),
                Some(p) => if rule.0.len() >= p.0 {
                    Some((rule.0.len() as int, rule.1))
                } else {
                    prev
                },
            }
        } else {
            prev
        }
    }
}

/// The minimum severity in force for a target: the level of the winning
/// rule, or the default level when no rule's prefix matches.
pub open spec fn spec_effective_level(
    rules: Seq<(Seq<char>, LogLevel)>,
    default_level: LogLevel,
    target: Seq<char>,
) -> LogLevel {
    match best_match(rules, target, rules.len() as int) {
        Some(p) => p.1,
        None => default_level,
    }
}

/// An event passes the filter exactly when its severity is at least the
/// minimum in force for its target.
pub open spec fn spec_enabled(
    rules: Seq<(Seq<char>, LogLevel)>,
    default_level: LogLevel,
    target: Seq<char>,
    level: LogLevel,
) -> bool {
    spec_level_number(level) >= spec_level_number(
        spec_effective_level(rules, default_level, target),
    )
}

/// The views of a rule list.
pub open spec fn rule_views(rs: Seq<(String, LogLevel)>) -> Seq<(Seq<char>, LogLevel)>
    decreases rs.len(),
{
    if rs.len() == 0 {
        Seq::<(Seq<char>, LogLevel)>::empty()
    } else {
        rule_views(rs.drop_last()).push((rs.last().0@, rs.last().1))
    }
}

/// Checks whether `p` is a prefix of `t`.
fn is_prefix_chars(p: &Vec<char>, t: &Vec<char>) -> (r: bool)
    ensures
        r == is_prefix_of(p@, t@),
{
    let plen = p.len();
    if plen > t.len() {
        return false;
    }
    let mut i: usize = 0;
    while i < plen
        invariant
            plen == p@.len() <= t@.len(),
            0 <= i <= plen,
            forall|j: int| 0 <= j < i ==> t@[j] == p@[j],
        decreases plen - i,
    {
        if t[i] != p[i] {
            proof {
                assert(t@.take(plen as int)[i as int] == t@[i as int]);
            }
            return false;
        }
        i = i + 1;
    }
    proof {
        assert(t@.take(plen as int) =~= p@);
    }
    true
}

/// The unified filter: an ordered list of (prefix, minimum severity) rules
/// and a default minimum severity for targets no rule matches.
#[derive(Debug, Clone)]
pub struct TargetFilter {
    rules: Vec<(String, LogLevel)>,
    default_level: LogLevel,
}

impl TargetFilter {
    /// The rules, as specifications see them.
    pub closed spec fn spec_rules(&self) -> Seq<(Seq<char>, LogLevel)> {
        rule_views(self.rules@)
    }

    /// The default minimum severity.
    pub closed spec fn spec_default(&self) -> LogLevel {
        self.default_level
    }

    /// A filter with no rules: every target gets the default minimum.
    pub fn new(default_level: LogLevel) -> (r: Self)
        ensures
            r.spec_rules() == Seq::<(Seq<char>, LogLevel)>::empty(),
            r.spec_default() == default_level,
    {
        TargetFilter { rules: Vec::new(), default_level }
    }

    /// Replaces the default minimum severity.
    pub fn with_default(self, default_level: LogLevel) -> (r: Self)
        ensures
            r.spec_rules() == self.spec_rules(),
            r.spec_default() == default_level,
    {
        TargetFilter { rules: self.rules, default_level }
    }

    /// Appends a rule: targets starting with `target` get at least `level`,
    /// unless a more specific rule overrides it. A later rule for the same
    /// prefix overrides an earlier one.
    pub fn with_target(self, target: &str, level: LogLevel) -> (r: Self)
        ensures
            r.spec_rules() == self.spec_rules().push((target@, level)),
            r.spec_default() == self.spec_default(),
    {
        let mut rules = self.rules;
        let ghost rules_old = rules@;
        rules.push((target.to_owned(), level));
        proof {
            assert(rules@.drop_last() =~= rules_old);
        }
        TargetFilter { rules, default_level: self.default_level }
    }

    /// Drops every rule, keeping the default.
    pub fn clear_targets(self) -> (r: Self)
        ensures
            r.spec_rules() == Seq::<(Seq<char>, LogLevel)>::empty(),
            r.spec_default() == self.spec_default(),
    {
        TargetFilter { rules: Vec::new(), default_level: self.default_level }
    }

    /// The minimum severity in force for the given target.
    pub fn effective_level(&self, target: &str) -> (r: LogLevel)
        ensures
            r == spec_effective_level(self.spec_rules(), self.spec_default(), target@),
    {
        let tc = to_chars(target);
        let mut have = false;
        let mut best_len: usize = 0;
        let mut best_level = self.default_level;
        let mut i: usize = 0;
        proof {
            assert(rule_views(self.rules@.take(0)) =~= Seq::<(Seq<char>, LogLevel)>::empty());
        }
        while i < self.rules.len()
            invariant
                0 <= i <= self.rules@.len(),
                tc@ == target@,
                !have ==> best_level == self.spec_default(),
                best_match(self.spec_rules(), target@, i as int) == if have {
                    Some((best_len as int, best_level))
                } else {
                    Option::<(int, LogLevel)>::None
                },
            decreases self.rules@.len() - i,
        {
            let pc = to_chars(self.rules[i].0.as_str());
            let matched = is_prefix_chars(&pc, &tc);
            proof {
                lemma_rule_views_index(self.rules@, i as int);
                assert(self.spec_rules()[i as int] == (self.rules@[i as int].0@, self.rules@[
                    i as int].1));
            }
            if matched {
                if !have || pc.len() >= best_len {
                    have = true;
                    best_len = pc.len();
                    best_level = self.rules[i].1;
                }
            }
            i = i + 1;
        }
        proof {
            lemma_rule_views_len(self.rules@);
        }
        best_level
    }

    /// The rules, in order, for handing this configuration to an outside
    /// subscriber.
    pub fn rules(&self) -> (r: &Vec<(String, LogLevel)>)
        ensures
            rule_views(r@) == self.spec_rules(),
    {
        &self.rules
    }

    /// The default minimum severity, for handing this configuration to an
    /// outside subscriber.
    pub fn default_level(&self) -> (r: LogLevel)
        ensures
            r == self.spec_default(),
    {
        self.default_level
    }

    /// Decides whether an event of the given severity and target passes the
    /// filter: it does exactly when its severity is at least the minimum in
    /// force for its target.
    pub fn enabled(&self, target: &str, level: LogLevel) -> (r: bool)
        ensures
            r == spec_enabled(self.spec_rules(), self.spec_default(), target@, level),
    {
        let min = self.effective_level(target);
        level.to_number() >= min.to_number()
    }
}

/// The views of a rule list index pointwise.
proof fn lemma_rule_views_index(rs: Seq<(String, LogLevel)>, i: int)
    requires
        0 <= i < rs.len(),
    ensures
        rule_views(rs).len() == rs.len(),
        rule_views(rs)[i] == (rs[i].0@, rs[i].1),
    decreases rs.len(),
{
    lemma_rule_views_len(rs);
    if i < rs.len() - 1 {
        lemma_rule_views_index(rs.drop_last(), i);
    }
}

/// A rule list and its views have the same length.
proof fn lemma_rule_views_len(rs: Seq<(String, LogLevel)>)
    ensures
        rule_views(rs).len() == rs.len(),
    decreases rs.len(),
{
    if rs.len() > 0 {
        lemma_rule_views_len(rs.drop_last());
    }
}

/// When no rule's prefix matches the target, the default minimum applies.
pub proof fn lemma_default_applies(
    rules: Seq<(Seq<char>, LogLevel)>,
    default_level: LogLevel,
    target: Seq<char>,
)
    requires
        forall|j: int| 0 <= j < rules.len() ==> !is_prefix_of(#[trigger] rules[j].0, target),
    ensures
        spec_effective_level(rules, default_level, target) == default_level,
{
    lemma_no_match(rules, target, rules.len() as int);
}

/// With no matching rule among the first `n`, there is no winner.
proof fn lemma_no_match(rules: Seq<(Seq<char>, LogLevel)>, target: Seq<char>, n: int)
    requires
        n <= rules.len(),
        forall|j: int| 0 <= j < n ==> !is_prefix_of(#[trigger] rules[j].0, target),
    ensures
        best_match(rules, target, n) is None,
    decreases n,
{
    if n > 0 {
        lemma_no_match(rules, target, n - 1);
    }
}

/// The most specific rule wins: a matching rule whose prefix is at least as
/// long as every other matching rule's prefix, and which stands last among
/// those of equal length, decides the minimum. In particular a repeated
/// rule for one prefix overrides the earlier one.
pub proof fn lemma_most_specific_wins(
    rules: Seq<(Seq<char>, LogLevel)>,
    default_level: LogLevel,
    target: Seq<char>,
    w: int,
)
    requires
        0 <= w < rules.len(),
        is_prefix_of(rules[w].0, target),
        forall|j: int|
            0 <= j < rules.len() && j != w && is_prefix_of(#[trigger] rules[j].0, target)
                ==> rules[j].0.len() < rules[w].0.len() || (rules[j].0.len() == rules[w].0.len()
                && j < w),
    ensures
        spec_effective_level(rules, default_level, target) == rules[w].1,
{
    lemma_winner_from(rules, target, w, rules.len() as int);
}

/// Once past the winning rule, the winner stays in place.
proof fn lemma_winner_from(rules: Seq<(Seq<char>, LogLevel)>, target: Seq<char>, w: int, n: int)
    requires
        0 <= w < n <= rules.len(),
        is_prefix_of(rules[w].0, target),
        forall|j: int|
            0 <= j < rules.len() && j != w && is_prefix_of(#[trigger] rules[j].0, target)
                ==> rules[j].0.len() < rules[w].0.len() || (rules[j].0.len() == rules[w].0.len()
                && j < w),
    ensures
        best_match(rules, target, n) == Some((rules[w].0.len() as int, rules[w].1)),
    decreases n,
{
    if n - 1 == w {
        if w > 0 {
            lemma_prefix_bound(rules, target, w, w);
        }
    } else {
        lemma_winner_from(rules, target, w, n - 1);
    }
}

/// Any winner among the first `n` rules has a matching rule's length, so no
/// rule is beaten by a prefix longer than the longest match.
proof fn lemma_prefix_bound(rules: Seq<(Seq<char>, LogLevel)>, target: Seq<char>, w: int, n: int)
    requires
        0 <= n <= rules.len(),
        0 <= w < rules.len(),
        forall|j: int|
            0 <= j < rules.len() && j != w && is_prefix_of(#[trigger] rules[j].0, target)
                ==> rules[j].0.len() < rules[w].0.len() || (rules[j].0.len() == rules[w].0.len()
                && j < w),
    ensures
        match best_match(rules, target, n) {
            Some(p) => p.0 <= rules[w].0.len(),
            None => true,
        },
    decreases n,
{
    if n > 0 {
        lemma_prefix_bound(rules, target, w, n - 1);
    }
}

} // verus!