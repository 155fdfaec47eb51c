use crate::local_path::{file_name_spec, SanitizedLocalPath};
use vstd::prelude::*;

verus! {

/// Whether the regular expression `pattern` is accepted by the `regex` crate.
pub uninterp spec fn regex_compiles(pattern: Seq<char>) -> bool;

/// Whether the regular expression `pattern` matches somewhere in `text`.
pub uninterp spec fn regex_finds(pattern: Seq<char>, text: Seq<char>) -> bool;

/// Relies on `regex::Regex::new`: whether the pattern compiles depends on
/// the pattern alone.
#[verifier::external_body]
pub(crate) fn regex_is_valid(pattern: &str) -> (r: bool)
    ensures
        r == regex_compiles(pattern@),
{
    regex::Regex::new(pattern).is_ok()
}

/// Relies on `regex::Regex::new` and `regex::Regex::is_match`: a compiled
/// pattern reports whether it matches anywhere in the text.
#[verifier::external_body]
pub(crate) fn regex_is_match(pattern: &str, text: &str) -> (r: Option<bool>)
    ensures
        regex_compiles(pattern@) ==> r == Some(regex_finds(pattern@, text@)),
        !regex_compiles(pattern@) ==> r is None,
{
    match regex::Regex::new(pattern) {
        Ok(re) => Some(re.is_match(text)),
        Err(_) => None,
    }
}

/// One exclusion rule.
#[derive(Clone, Debug)]
pub enum Rule {
    /// The final path component equals this name.
    NameEquals(String),
    /// The final path component matches this regular expression.
    NameMatches(String),
    /// The whole path equals this local path.
    PathEquals(String),
    /// The whole path matches this regular expression.
    PathMatches(String),
}

/// Why a rule set was refused.
#[derive(Clone, Copy, Debug, PartialEq, Eq)]
pub enum RuleError {
    /// The rule at this position holds a regular expression that does not
    /// compile.
    InvalidPattern(usize),
}

/// A rule as a mathematical value.
pub enum RuleView {
    NameEquals(Seq<char>),
    NameMatches(Seq<char>),
    PathEquals(Seq<char>),
    PathMatches(Seq<char>),
}

impl View for Rule {
    type V = RuleView;

    open spec fn view(&self) -> RuleView {
        match self {
            Rule::NameEquals(s) => RuleView::NameEquals(s@),
            Rule::NameMatches(s) => RuleView::NameMatches(s@),
            Rule::PathEquals(s) => RuleView::PathEquals(s@),
            Rule::PathMatches(s) => RuleView::PathMatches(s@),
        }
    }
}

/// A rule whose regular expression, if it has one, compiles.
pub open spec fn rule_valid(rule: RuleView) -> bool {
    match rule {
        RuleView::NameMatches(p) => regex_compiles(p),
        RuleView::PathMatches(p) => regex_compiles(p),
        _ => true,
    }
}

/// Whether `rule` matches the local path `path`.
pub open spec fn rule_matches(rule: RuleView, path: Seq<char>) -> bool {
    match rule {
        RuleView::NameEquals(n) => file_name_spec(path) == n,
        RuleView::NameMatches(p) => regex_finds(p, file_name_spec(path)),
        RuleView::PathEquals(q) => path == q,
        RuleView::PathMatches(p) => regex_finds(p, path),
    }
}

/// A path is excluded exactly when some rule matches it.
pub open spec fn excluded(rules: Seq<RuleView>, path: Seq<char>) -> bool {
    exists|i: int| 0 <= i < rules.len() && rule_matches(#[trigger] rules[i], path)
}

pub open spec fn rules_view(v: Seq<Rule>) -> Seq<RuleView> {
    v.map_values(|r: Rule| r@)
}

/// The rule lists joined in order.
pub open spec fn concat_rule_lists(ls: Seq<Vec<Rule>>) -> Seq<RuleView>
    decreases ls.len(),
{
    if ls.len() == 0 {
        Seq::empty()
    } else {
        concat_rule_lists(ls.drop_last()) + rules_view(ls.last()@)
    }
}

/// Whether a path is excluded is decided by the rules and the path alone:
/// equal rule lists and equal paths always get the same answer.
pub proof fn exclusion_depends_on_rules_and_path(
    rules: Seq<RuleView>,
    path: Seq<char>,
    other_rules: Seq<RuleView>,
    other_path: Seq<char>,
)
    requires
        rules == other_rules,
        path == other_path,
    ensures
        excluded(rules, path) == excluded(other_rules, other_path),
{
}

impl Rule {
    /// A copy of this rule.
    pub fn duplicate(&self) -> (r: Rule)
        ensures
            r@ == self@,
    {
        match self {
            Rule::NameEquals(s) => Rule::NameEquals(s.clone()),
            Rule::NameMatches(s) => Rule::NameMatches(s.clone()),
            Rule::PathEquals(s) => Rule::PathEquals(s.clone()),
            Rule::PathMatches(s) => Rule::PathMatches(s.clone()),
        }
    }

    /// Whether this rule matches `path`.
    pub fn matches(&self, path: &SanitizedLocalPath) -> (r: bool)
        requires
            rule_valid(self@),
        ensures
            r == rule_matches(self@, path@),
    {
        match self {
            Rule::NameEquals(n) => {
                let name = path.file_name();
                name == *n
            },
            Rule::NameMatches(p) => {
                let name = path.file_name();
                match regex_is_match(p.as_str(), name.as_str()) {
                    Some(b) => b,
                    None => false,
                }
            },
            Rule::PathEquals(q) => {
                let s = path.as_str();
                let owned = s.to_owned();
                owned == *q
            },
            Rule::PathMatches(p) => match regex_is_match(p.as_str(), path.as_str()) {
                Some(b) => b,
                None => false,
            },
        }
    }

    /// Whether the rule's regular expression, if it has one, compiles.
    pub fn is_valid(&self) -> (r: bool)
        ensures
            r == rule_valid(self@),
    {
        match self {
            Rule::NameMatches(p) => regex_is_valid(p.as_str()),
            Rule::PathMatches(p) => regex_is_valid(p.as_str()),
            _ => true,
        }
    }
}

/// The rules that apply below one local root: the global rules first, then
/// those of the mount point.
#[derive(Clone, Debug)]
pub struct Rules {
    rules: Vec<Rule>,
    root: SanitizedLocalPath,
}

impl Rules {
    /// The rules in the order they are evaluated.
    pub closed spec fn rule_list(&self) -> Seq<RuleView> {
        rules_view(self.rules@)
    }

    /// The local root these rules are anchored at.
    pub closed spec fn root_view(&self) -> Seq<char> {
        self.root@
    }

    pub open spec fn wf(&self) -> bool {
        forall|i: int| 0 <= i < self.rule_list().len() ==> rule_valid(#[trigger] self.rule_list()[i])
    }

    /// Concatenates the rule lists in order; refuses a rule whose regular
    /// expression does not compile, naming its position in the result.
    pub fn new(lists: &Vec<Vec<Rule>>, root: SanitizedLocalPath) -> (r: Result<Rules, RuleError>)
        ensures
            match r {
                Ok(rs) => rs.wf() && rs.root_view() == root@ && rs.rule_list() == concat_rule_lists(
                    lists@,
                ),
                Err(RuleError::InvalidPattern(i)) => i < concat_rule_lists(lists@).len()
                    && !rule_valid(concat_rule_lists(lists@)[i as int]),
            },
    {
        let mut rules: Vec<Rule> = Vec::new();
        let mut i: usize = 0;
        while i < lists.len()
            invariant
                i <= lists@.len(),
                rules_view(rules@) == concat_rule_lists(lists@.take(i as int)),
            decreases lists@.len() - i,
        {
            let list = &lists[i];
            let mut k: usize = 0;
            while k < list.len()
                invariant
                    k <= list@.len(),
                    list == lists@[i as int],
                    rules_view(rules@) == concat_rule_lists(lists@.take(i as int)) + rules_view(
                        list@.take(k as int),
                    ),
                decreases list@.len() - k,
            {
                let ghost prev = rules@;
                rules.push(list[k].duplicate());
                proof {
                    assert(rules_view(rules@) =~= rules_view(prev).push(list@[k as int]@));
                    assert(rules_view(list@.take(k + 1)) =~= rules_view(list@.take(k as int)).push(
                        list@[k as int]@,
                    ));
                }
                k = k + 1;
            }
            proof {
                assert(list@.take(list@.len() as int) =~= list@);
                assert(lists@.take(i + 1).drop_last() =~= lists@.take(i as int));
            }
            i = i + 1;
        }
        assert(lists@.take(lists@.len() as int) =~= lists@);
        let mut j: usize = 0;
        while j < rules.len()
            invariant
                j <= rules@.len(),
                rules_view(rules@) == concat_rule_lists(lists@),
                forall|m: int| 0 <= m < j ==> rule_valid(#[trigger] rules_view(rules@)[m]),
            decreases rules@.len() - j,
        {
            if !rules[j].is_valid() {
                assert(rules_view(rules@)[j as int] == rules@[j as int]@);
                return Err(RuleError::InvalidPattern(j));
            }
            assert(rules_view(rules@)[j as int] == rules@[j as int]@);
            j = j + 1;
        }
        Ok(Rules { rules, root })
    }

    /// The local root.
    pub fn root(&self) -> (r: &SanitizedLocalPath)
        ensures
            r@ == self.root_view(),
    {
        &self.root
    }

    /// Whether `path` is excluded from synchronization: true exactly when
    /// some rule matches it.
    pub fn is_excluded(&self, path: &SanitizedLocalPath) -> (r: bool)
        requires
            self.wf(),
        ensures
            r == excluded(self.rule_list(), path@),
    {
        let mut i: usize = 0;
        while i < self.rules.len()
            invariant
                self.wf(),
                i <= self.rules@.len(),
                forall|j: int| 0 <= j < i ==> !rule_matches(#[trigger] self.rule_list()[j], path@),
            decreases self.rules@.len() - i,
        {
            assert(self.rule_list()[i as int] == self.rules@[i as int]@);
            if self.rules[i].matches(path) {
                return true;
            }
            i = i + 1;
        }
        false
    }
}

} // verus!
