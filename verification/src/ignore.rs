//! Ignore patterns.
//!
//! Supported are comments, blank lines, negation with `!`, directory-only patterns with a trailing
//! `/`, anchoring with an embedded `/`, and the wildcards `*`, `?` and `**`.

use vstd::prelude::*;

use crate::text::{
    after_prefix, before_suffix, chars_of, contains, copy_text, cut, holds, join2, line_list, lines, opt_text, starts,
    starts_with, strip_prefix, strip_suffix, texts, trim_end, trimmed_end,
};

verus! {

/// The most patterns that are considered.
pub const MAX_PATTERNS: usize = 1_024;

/// The most pattern files that are considered.
pub const MAX_FILES: usize = 64;

/// The largest pattern file that is considered, in bytes.
pub const MAX_FILE_BYTES: usize = 65_536;

/// One line of a pattern file, classified.
pub struct Pattern {
    /// The directory of the pattern file below the root, with a trailing `/` unless it is the
    /// root itself.
    pub base: String,
    pub text: String,
    pub negated: bool,
    pub directory_only: bool,
    pub anchored: bool,
}

/// What a pattern holds.
#[verifier::ext_equal]
pub struct Rule {
    pub base: Seq<char>,
    pub text: Seq<char>,
    pub negated: bool,
    pub directory_only: bool,
    pub anchored: bool,
}

impl View for Pattern {
    type V = Rule;

    open spec fn view(&self) -> Rule {
        Rule {
            base: self.base@,
            text: self.text@,
            negated: self.negated,
            directory_only: self.directory_only,
            anchored: self.anchored,
        }
    }
}

/// All the ignore patterns that apply inside one repository.
pub struct IgnoreRules {
    pub patterns: Vec<Pattern>,
}

impl View for IgnoreRules {
    type V = Seq<Rule>;

    open spec fn view(&self) -> Seq<Rule> {
        self.patterns@.map_values(|p: Pattern| p@)
    }
}

impl Default for IgnoreRules {
    fn default() -> (r: Self)
        ensures
            r@ == Seq::<Rule>::empty(),
    {
        let r = IgnoreRules { patterns: Vec::new() };
        assert(r@ =~= Seq::<Rule>::empty());
        r
    }
}

// ---------------------------------------------------------------------------
// Wildcards
// ---------------------------------------------------------------------------

/// Whether `p[i..]` holds nothing but stars.
pub open spec fn only_stars(p: Seq<char>, i: int) -> bool {
    forall|k: int| i <= k < p.len() ==> #[trigger] p[k] == '*'
}

/// Where the pattern goes on after a double star at `i`: behind the stars and one separator.
pub open spec fn after_double_star(p: Seq<char>, i: int) -> int {
    if i + 2 < p.len() && p[i + 2] == '/' {
        i + 3
    } else {
        i + 2
    }
}

/// Whether the pattern `p[i..]` matches the text `t[j..]`. A star stands for any run of characters
/// but `/`, a question mark for any one character but `/`, a double star for any run at all,
/// together with one separator behind it. At the end of the text only stars may be left.
pub open spec fn glob(p: Seq<char>, t: Seq<char>, i: int, j: int) -> bool
    decreases p.len() - i, t.len() - j, 0int,
{
    if i < 0 || j < 0 || j >= t.len() {
        only_stars(p, i)
    } else if i >= p.len() {
        false
    } else if p[i] == '*' && i + 1 < p.len() && p[i + 1] == '*' {
        glob_any(p, t, after_double_star(p, i), j)
    } else if p[i] == '*' {
        glob(p, t, i + 1, j) || (t[j] != '/' && glob(p, t, i, j + 1))
    } else if p[i] == '?' {
        t[j] != '/' && glob(p, t, i + 1, j + 1)
    } else {
        p[i] == t[j] && glob(p, t, i + 1, j + 1)
    }
}

/// Whether the pattern `p[i..]` matches the text from `j` or some later position on.
pub open spec fn glob_any(p: Seq<char>, t: Seq<char>, i: int, j: int) -> bool
    decreases p.len() - i, t.len() - j, 1int,
{
    glob(p, t, i, j) || (j < t.len() && glob_any(p, t, i, j + 1))
}

/// Whether `row` holds, for every position of the text, whether `p[i..]` matches from there.
pub open spec fn is_row(row: Seq<bool>, p: Seq<char>, t: Seq<char>, i: int) -> bool {
    &&& row.len() == t.len() + 1
    &&& forall|j: int| 0 <= j <= t.len() ==> #[trigger] row[j] == glob(p, t, i, j)
}

/// The row of `p[i..]`, from the rows behind it. `rows[k]` is the row of `p[p.len() - k..]`.
fn glob_row(p: &[char], t: &[char], i: usize, rows: &Vec<Vec<bool>>) -> (r: Vec<bool>)
    requires
        i < p@.len(),
        rows@.len() == p@.len() - i,
        forall|k: int|
            0 <= k < rows@.len() ==> is_row((#[trigger] rows@[k])@, p@, t@, p@.len() - k),
    ensures
        is_row(r@, p@, t@, i as int),
{
    let n: usize = t.len();
    // Filled from the end of the text to its start, and turned round at the end.
    let mut back: Vec<bool> = Vec::new();
    let last = p[i] == '*' && rows[rows.len() - 1][n];
    proof {
        let next = rows@[rows@.len() - 1]@;
        assert(is_row(next, p@, t@, i + 1));
        assert(next[n as int] == glob(p@, t@, i + 1, n as int));
        assert(only_stars(p@, i as int) <==> p@[i as int] == '*' && only_stars(p@, i + 1)) by {
            if p@[i as int] == '*' && only_stars(p@, i + 1) {
                assert forall|k: int| i <= k < p@.len() implies #[trigger] p@[k] == '*' by {}
            }
        }
    }
    back.push(last);
    let double = p[i] == '*' && i + 1 < p.len() && p[i + 1] == '*';
    let after: usize = if !double {
        i
    } else if p.len() - i > 2 && p[i + 2] == '/' {
        i + 3
    } else {
        i + 2
    };
    let mut any = double && rows[p.len() - after][n];
    let mut j: usize = n;
    proof {
        if double {
            assert(is_row(rows@[p@.len() - after]@, p@, t@, after as int));
            assert(rows@[p@.len() - after]@[n as int] == glob(p@, t@, after as int, n as int));
        }
    }
    while j > 0
        invariant
            j <= n,
            n == t@.len(),
            i < p@.len(),
            rows@.len() == p@.len() - i,
            forall|k: int|
                0 <= k < rows@.len() ==> is_row((#[trigger] rows@[k])@, p@, t@, p@.len() - k),
            back@.len() == n - j + 1,
            forall|k: int|
                0 <= k < back@.len() ==> #[trigger] back@[k] == glob(p@, t@, i as int, n - k),
            double == (p@[i as int] == '*' && i + 1 < p@.len() && p@[i + 1] == '*'),
            double ==> after == after_double_star(p@, i as int) && after <= p@.len(),
            double ==> any == glob_any(p@, t@, after as int, j as int),
        decreases j,
    {
        let ghost j0 = j as int;
        j -= 1;
        let c = p[i];
        let next: &Vec<bool> = &rows[rows.len() - 1];
        proof {
            assert(is_row(next@, p@, t@, i + 1));
            assert(next@[j as int] == glob(p@, t@, i + 1, j as int));
            assert(next@[j + 1] == glob(p@, t@, i + 1, j + 1));
            assert(back@[n - j0] == glob(p@, t@, i as int, j0));
        }
        let v = if double {
            let row: &Vec<bool> = &rows[p.len() - after];
            proof {
                assert(is_row(row@, p@, t@, after as int));
                assert(row@[j as int] == glob(p@, t@, after as int, j as int));
            }
            any = any || row[j];
            assert(any == glob_any(p@, t@, after as int, j as int));
            assert(any == glob(p@, t@, i as int, j as int)) by {
                assert(after == after_double_star(p@, i as int));
                assert(j < t@.len());
                reveal_with_fuel(glob, 2);
            }
            any
        } else if c == '*' {
            let w = next[j] || (t[j] != '/' && back[back.len() - 1]);
            assert(w == glob(p@, t@, i as int, j as int));
            w
        } else if c == '?' {
            let w = t[j] != '/' && next[j + 1];
            assert(w == glob(p@, t@, i as int, j as int));
            w
        } else {
            let w = c == t[j] && next[j + 1];
            assert(w == glob(p@, t@, i as int, j as int));
            w
        };
        assert(v == glob(p@, t@, i as int, j as int));
        back.push(v);
    }
    let mut out: Vec<bool> = Vec::new();
    let mut k: usize = 0;
    while k < back.len()
        invariant
            k <= n + 1,
            n == t@.len(),
            back@.len() == n + 1,
            forall|k: int|
                0 <= k < back@.len() ==> #[trigger] back@[k] == glob(p@, t@, i as int, n - k),
            out@.len() == k,
            forall|j: int| 0 <= j < k ==> #[trigger] out@[j] == glob(p@, t@, i as int, j),
        decreases n + 1 - k,
    {
        assert(back@[n - k] == glob(p@, t@, i as int, k as int));
        out.push(back[n - k]);
        k += 1;
    }
    out
}

/// Whether the pattern matches the whole text.
pub fn glob_match(pattern: &str, text: &str) -> (r: bool)
    ensures
        r == glob(pattern@, text@, 0, 0),
{
    let p = chars_of(pattern);
    let t = chars_of(text);
    let n: usize = p.len();
    let mut rows: Vec<Vec<bool>> = Vec::new();
    let mut row: Vec<bool> = Vec::new();
    let mut j: usize = 0;
    while j < t.len()
        invariant
            j <= t@.len(),
            row@.len() == j,
            forall|k: int| 0 <= k < j ==> !#[trigger] row@[k],
        decreases t@.len() - j,
    {
        row.push(false);
        j += 1;
    }
    row.push(true);
    assert(is_row(row@, p@, t@, n as int)) by {
        assert forall|j: int| 0 <= j <= t@.len() implies #[trigger] row@[j] == glob(
            p@,
            t@,
            n as int,
            j,
        ) by {}
    }
    rows.push(row);
    let mut i: usize = n;
    while i > 0
        invariant
            i <= n,
            n == p@.len(),
            rows@.len() == n - i + 1,
            forall|k: int|
                0 <= k < rows@.len() ==> is_row((#[trigger] rows@[k])@, p@, t@, p@.len() - k),
        decreases i,
    {
        i -= 1;
        let row = glob_row(p.as_slice(), t.as_slice(), i, &rows);
        rows.push(row);
    }
    let first: &Vec<bool> = &rows[n];
    assert(is_row(first@, p@, t@, 0));
    first[0]
}

// ---------------------------------------------------------------------------
// Patterns
// ---------------------------------------------------------------------------

/// Whether `text` matches the pattern `p` from some separator on.
pub open spec fn below_some_directory(p: Seq<char>, text: Seq<char>) -> bool {
    exists|i: int|
        0 <= i < text.len() && text[i] == '/' && #[trigger] glob(
            p,
            text.subrange(i + 1, text.len() as int),
            0,
            0,
        )
}

/// Whether a rule matches a path: an anchored one the path below its own directory, another one
/// any part of it that ends the path.
pub open spec fn rule_matches(rule: Rule, candidate: Seq<char>) -> bool {
    match after_prefix(candidate, rule.base) {
        Some(rest) => glob(rule.text, rest, 0, 0) || (!rule.anchored && below_some_directory(
            rule.text,
            rest,
        )),
        None => false,
    }
}

impl Pattern {
    fn matches(&self, candidate: &str) -> (r: bool)
        ensures
            r == rule_matches(self@, candidate@),
    {
        match strip_prefix(candidate, self.base.as_str()) {
            Some(rest) => {
                if glob_match(self.text.as_str(), rest.as_str()) {
                    return true;
                }
                if self.anchored {
                    return false;
                }
                let cs = chars_of(rest.as_str());
                let mut i: usize = 0;
                while i < cs.len()
                    invariant
                        i <= cs.len(),
                        cs@ == rest@,
                        after_prefix(candidate@, self.base@) == Some(rest@),
                        !self.anchored,
                        forall|k: int|
                            0 <= k < i && rest@[k] == '/' ==> !#[trigger] glob(
                                self.text@,
                                rest@.subrange(k + 1, rest@.len() as int),
                                0,
                                0,
                            ),
                    decreases cs.len() - i,
                {
                    if cs[i] == '/' && glob_match(
                        self.text.as_str(),
                        cut(cs.as_slice(), i + 1, cs.len()).as_str(),
                    ) {
                        assert(glob(self.text@, rest@.subrange(i + 1, rest@.len() as int), 0, 0));
                        return true;
                    }
                    i += 1;
                }
                false
            },
            None => false,
        }
    }
}

/// What the rules say of one path: the last of them that matches decides, and where none does,
/// `ignored` stands.
pub open spec fn decided(
    rules: Seq<Rule>,
    candidate: Seq<char>,
    is_directory: bool,
    ignored: bool,
) -> bool
    decreases rules.len(),
{
    if rules.len() == 0 {
        ignored
    } else if !(rules.last().directory_only && !is_directory) && rule_matches(
        rules.last(),
        candidate,
    ) {
        !rules.last().negated
    } else {
        decided(rules.drop_last(), candidate, is_directory, ignored)
    }
}

/// What the rules say of a path whose directories before `i` were found not to be ignored: each
/// further directory on the way is asked first, and an ignored one settles it.
pub open spec fn ignored_from(rules: Seq<Rule>, path: Seq<char>, i: int, ignored: bool) -> bool
    decreases path.len() - i,
{
    if i < 0 || i >= path.len() {
        decided(rules, path, false, ignored)
    } else if path[i] == '/' {
        let directory = decided(rules, path.subrange(0, i), true, ignored);
        directory || ignored_from(rules, path, i + 1, directory)
    } else {
        ignored_from(rules, path, i + 1, ignored)
    }
}

/// Whether the rules ignore a path.
pub open spec fn ignores(rules: Seq<Rule>, path: Seq<char>) -> bool {
    ignored_from(rules, path, 0, false)
}

impl IgnoreRules {
    fn decide(&self, candidate: &str, is_directory: bool, ignored: bool) -> (r: bool)
        ensures
            r == decided(self@, candidate@, is_directory, ignored),
    {
        let mut i: usize = self.patterns.len();
        let ghost all = self@;
        assert(all.take(all.len() as int) =~= all);
        while i > 0
            invariant
                i <= self.patterns@.len(),
                all == self@,
                decided(all, candidate@, is_directory, ignored) == decided(
                    all.take(i as int),
                    candidate@,
                    is_directory,
                    ignored,
                ),
            decreases i,
        {
            assert(all.take(i as int).drop_last() =~= all.take(i - 1));
            assert(all.take(i as int).last() == self.patterns@[i - 1]@);
            let p = &self.patterns[i - 1];
            if !(p.directory_only && !is_directory) && p.matches(candidate) {
                return !p.negated;
            }
            i -= 1;
        }
        ignored
    }

    /// Whether `relative`, a path below the repository root, is ignored: it matches a pattern, or
    /// a directory on its way does. The last matching pattern wins, so a later `!` line includes
    /// again what an earlier line excluded, except below an ignored directory.
    pub fn is_ignored(&self, relative: &str) -> (r: bool)
        ensures
            r == ignores(self@, relative@),
    {
        let cs = chars_of(relative);
        let mut ignored = false;
        let mut i: usize = 0;
        while i < cs.len()
            invariant
                i <= cs.len(),
                cs@ == relative@,
                ignores(self@, relative@) == ignored_from(self@, relative@, i as int, ignored),
            decreases cs.len() - i,
        {
            if cs[i] == '/' {
                ignored = self.decide(cut(cs.as_slice(), 0, i).as_str(), true, ignored);
                if ignored {
                    return true;
                }
            }
            i += 1;
        }
        self.decide(relative, false, ignored)
    }
}

/// The last of the rules that matches a path.
pub open spec fn deciding(rules: Seq<Rule>, candidate: Seq<char>, is_directory: bool) -> Option<Rule>
    decreases rules.len(),
{
    if rules.len() == 0 {
        None
    } else if !(rules.last().directory_only && !is_directory) && rule_matches(
        rules.last(),
        candidate,
    ) {
        Some(rules.last())
    } else {
        deciding(rules.drop_last(), candidate, is_directory)
    }
}

/// The rule that ignores a path whose directories before `i` were found not to be ignored.
pub open spec fn ignoring_from(rules: Seq<Rule>, path: Seq<char>, i: int) -> Option<Rule>
    decreases path.len() - i,
{
    if i < 0 || i >= path.len() {
        match deciding(rules, path, false) {
            Some(rule) => if rule.negated {
                None
            } else {
                Some(rule)
            },
            None => None,
        }
    } else if path[i] == '/' {
        match deciding(rules, path.subrange(0, i), true) {
            Some(rule) => if rule.negated {
                ignoring_from(rules, path, i + 1)
            } else {
                Some(rule)
            },
            None => ignoring_from(rules, path, i + 1),
        }
    } else {
        ignoring_from(rules, path, i + 1)
    }
}

/// A rule as it is reported: the pattern file it stands in, and the pattern.
pub open spec fn rule_text(rule: Rule) -> Seq<char> {
    rule.base + ".gitignore:"@ + (if rule.negated {
        "!"@
    } else {
        ""@
    }) + rule.text + (if rule.directory_only {
        "/"@
    } else {
        ""@
    })
}

/// The report of the rule that ignores a path.
pub open spec fn ignoring_rule(rules: Seq<Rule>, path: Seq<char>) -> Option<Seq<char>> {
    match ignoring_from(rules, path, 0) {
        Some(rule) => Some(rule_text(rule)),
        None => None,
    }
}

proof fn lemma_deciding(rules: Seq<Rule>, candidate: Seq<char>, is_directory: bool)
    ensures
        decided(rules, candidate, is_directory, false) == match deciding(
            rules,
            candidate,
            is_directory,
        ) {
            Some(rule) => !rule.negated,
            None => false,
        },
    decreases rules.len(),
{
    if rules.len() > 0 {
        lemma_deciding(rules.drop_last(), candidate, is_directory);
    }
}

proof fn lemma_ignoring_from(rules: Seq<Rule>, path: Seq<char>, i: int)
    ensures
        ignored_from(rules, path, i, false) <==> ignoring_from(rules, path, i) is Some,
    decreases path.len() - i,
{
    if i < 0 || i >= path.len() {
        lemma_deciding(rules, path, false);
    } else {
        if path[i] == '/' {
            lemma_deciding(rules, path.subrange(0, i), true);
        }
        lemma_ignoring_from(rules, path, i + 1);
    }
}

/// A path is ignored exactly where some rule is reported to ignore it.
pub proof fn lemma_ignored_by_a_rule(rules: Seq<Rule>, path: Seq<char>)
    ensures
        ignores(rules, path) <==> ignoring_rule(rules, path) is Some,
{
    lemma_ignoring_from(rules, path, 0);
}

impl IgnoreRules {
    fn decider(&self, candidate: &str, is_directory: bool) -> (r: Option<&Pattern>)
        ensures
            match r {
                Some(p) => deciding(self@, candidate@, is_directory) == Some(p@),
                None => deciding(self@, candidate@, is_directory) is None,
            },
    {
        let mut i: usize = self.patterns.len();
        let ghost all = self@;
        assert(all.take(all.len() as int) =~= all);
        while i > 0
            invariant
                i <= self.patterns@.len(),
                all == self@,
                deciding(all, candidate@, is_directory) == deciding(
                    all.take(i as int),
                    candidate@,
                    is_directory,
                ),
            decreases i,
        {
            assert(all.take(i as int).drop_last() =~= all.take(i - 1));
            assert(all.take(i as int).last() == self.patterns@[i - 1]@);
            let p = &self.patterns[i - 1];
            if !(p.directory_only && !is_directory) && p.matches(candidate) {
                return Some(p);
            }
            i -= 1;
        }
        None
    }

    /// The report of the rule that ignores `relative`, a path below the repository root.
    pub fn describe(&self, relative: &str) -> (r: Option<String>)
        ensures
            opt_text(r) == ignoring_rule(self@, relative@),
    {
        let cs = chars_of(relative);
        let mut i: usize = 0;
        while i < cs.len()
            invariant
                i <= cs.len(),
                cs@ == relative@,
                ignoring_from(self@, relative@, 0) == ignoring_from(self@, relative@, i as int),
            decreases cs.len() - i,
        {
            if cs[i] == '/' {
                if let Some(p) = self.decider(cut(cs.as_slice(), 0, i).as_str(), true) {
                    if !p.negated {
                        return Some(p.report());
                    }
                }
            }
            i += 1;
        }
        match self.decider(relative, false) {
            Some(p) => if p.negated {
                None
            } else {
                Some(p.report())
            },
            None => None,
        }
    }
}

impl Pattern {
    fn report(&self) -> (r: String)
        ensures
            r@ == rule_text(self@),
    {
        let mut out = join2(self.base.as_str(), ".gitignore:");
        out.append(if self.negated {
            "!"
        } else {
            ""
        });
        out.append(self.text.as_str());
        out.append(if self.directory_only {
            "/"
        } else {
            ""
        });
        out
    }
}

/// What stands behind a prefix, and the text itself where the prefix is missing.
pub open spec fn without_prefix(s: Seq<char>, pat: Seq<char>) -> Seq<char> {
    match after_prefix(s, pat) {
        Some(rest) => rest,
        None => s,
    }
}

/// What stands before a suffix, and the text itself where the suffix is missing.
pub open spec fn without_suffix(s: Seq<char>, pat: Seq<char>) -> Seq<char> {
    match before_suffix(s, pat) {
        Some(rest) => rest,
        None => s,
    }
}

/// The rule that one line of a pattern file states.
pub open spec fn rule_of(base: Seq<char>, line: Seq<char>) -> Option<Rule> {
    let l = trimmed_end(line);
    let positive = without_prefix(l, "!"@);
    let named = without_suffix(positive, "/"@);
    let text = without_prefix(named, "/"@);
    if l.len() == 0 || starts(l, "#"@) || text.len() == 0 {
        None
    } else {
        Some(
            Rule {
                base,
                text,
                negated: starts(l, "!"@),
                directory_only: before_suffix(positive, "/"@) is Some,
                anchored: holds(named, "/"@),
            },
        )
    }
}

/// The rules once the lines of a pattern file are added, up to the most that are considered.
pub open spec fn rules_with(rules: Seq<Rule>, base: Seq<char>, lines: Seq<Seq<char>>) -> Seq<Rule>
    decreases lines.len(),
{
    if lines.len() == 0 || rules.len() >= MAX_PATTERNS {
        rules
    } else {
        let rest = lines.subrange(1, lines.len() as int);
        match rule_of(base, lines[0]) {
            Some(rule) => rules_with(rules.push(rule), base, rest),
            None => rules_with(rules, base, rest),
        }
    }
}

fn pattern_of(base: &str, line: &str) -> (r: Option<Pattern>)
    ensures
        match r {
            Some(p) => rule_of(base@, line@) == Some(p@),
            None => rule_of(base@, line@) is None,
        },
{
    let l = trim_end(line);
    if l.as_str().is_empty() || starts_with(l.as_str(), "#") {
        return None;
    }
    let (negated, positive) = match strip_prefix(l.as_str(), "!") {
        Some(rest) => (true, rest),
        None => (false, l),
    };
    let (directory_only, named) = match strip_suffix(positive.as_str(), "/") {
        Some(rest) => (true, rest),
        None => (false, positive),
    };
    let anchored = contains(named.as_str(), "/");
    let text = match strip_prefix(named.as_str(), "/") {
        Some(rest) => rest,
        None => named,
    };
    if text.as_str().is_empty() {
        return None;
    }
    Some(Pattern { base: copy_text(base), text, negated, directory_only, anchored })
}

/// Adds the patterns of one pattern file.
pub fn add_patterns(rules: &mut IgnoreRules, base: &str, text: &str)
    ensures
        final(rules)@ == rules_with(old(rules)@, base@, line_list(text@)),
{
    let all = lines(text);
    let ghost list = line_list(text@);
    let ghost start = rules@;
    let mut i: usize = 0;
    assert(list.subrange(0, list.len() as int) =~= list);
    while i < all.len()
        invariant
            i <= all.len(),
            texts(all@) == list,
            start == old(rules)@,
            list == line_list(text@),
            rules_with(start, base@, list) == rules_with(
                rules@,
                base@,
                list.subrange(i as int, list.len() as int),
            ),
        decreases all.len() - i,
    {
        let ghost rest = list.subrange(i as int, list.len() as int);
        assert(rest[0] == all@[i as int]@);
        assert(rest.subrange(1, rest.len() as int) =~= list.subrange(i + 1, list.len() as int));
        if rules.patterns.len() >= MAX_PATTERNS {
            assert(rules@.len() >= MAX_PATTERNS);
            return ;
        }
        let ghost was = rules@;
        if let Some(p) = pattern_of(base, all[i].as_str()) {
            rules.patterns.push(p);
            assert(rules@ =~= was.push(p@));
        }
        i += 1;
    }
}

/// Whether the rules ignore a directory, asked on the way from the root.
pub open spec fn ignores_directory(rules: Seq<Rule>, path: Seq<char>) -> bool {
    decided_on_the_way(rules, path + "/"@, 0, false)
}

/// Whether some directory of `path` is found to be ignored on the way from `i` on.
pub open spec fn decided_on_the_way(
    rules: Seq<Rule>,
    path: Seq<char>,
    i: int,
    ignored: bool,
) -> bool
    decreases path.len() - i,
{
    if i < 0 || i >= path.len() {
        false
    } else if path[i] == '/' {
        let directory = decided(rules, path.subrange(0, i), true, ignored);
        directory || decided_on_the_way(rules, path, i + 1, directory)
    } else {
        decided_on_the_way(rules, path, i + 1, ignored)
    }
}

proof fn lemma_on_the_way(rules: Seq<Rule>, path: Seq<char>, rest: Seq<char>, i: int, ignored: bool)
    requires
        0 <= i <= path.len(),
        decided_on_the_way(rules, path, i, ignored),
    ensures
        ignored_from(rules, path + rest, i, ignored),
    decreases path.len() - i,
{
    if i < path.len() {
        let longer = path + rest;
        assert(longer[i] == path[i]);
        if path[i] == '/' {
            assert(longer.subrange(0, i) =~= path.subrange(0, i));
            let directory = decided(rules, path.subrange(0, i), true, ignored);
            if !directory {
                lemma_on_the_way(rules, path, rest, i + 1, directory);
            }
        } else {
            lemma_on_the_way(rules, path, rest, i + 1, ignored);
        }
    }
}

/// Nothing below an ignored directory is included again, whatever the patterns say of it.
pub proof fn lemma_below_ignored(rules: Seq<Rule>, directory: Seq<char>, name: Seq<char>)
    requires
        ignores_directory(rules, directory),
    ensures
        ignores(rules, directory + "/"@ + name),
{
    lemma_on_the_way(rules, directory + "/"@, name, 0, false);
}

/// Without patterns nothing is ignored.
pub proof fn lemma_no_patterns(path: Seq<char>, i: int)
    ensures
        !ignored_from(seq![], path, i, false),
    decreases path.len() - i,
{
    if 0 <= i < path.len() {
        lemma_no_patterns(path, i + 1);
    }
}

/// The last pattern decides where it matches a file itself and no directory on the way is ignored.
pub proof fn lemma_last_pattern_wins(rules: Seq<Rule>, rule: Rule, path: Seq<char>)
    requires
        rule_matches(rule, path),
        !rule.directory_only,
        !decided_on_the_way(rules.push(rule), path, 0, false),
    ensures
        ignores(rules.push(rule), path) == !rule.negated,
{
    lemma_last_decides(rules, rule, path, 0, false);
}

proof fn lemma_last_decides(rules: Seq<Rule>, rule: Rule, path: Seq<char>, i: int, ignored: bool)
    requires
        rule_matches(rule, path),
        !rule.directory_only,
        0 <= i <= path.len(),
        !decided_on_the_way(rules.push(rule), path, i, ignored),
    ensures
        ignored_from(rules.push(rule), path, i, ignored) == !rule.negated,
    decreases path.len() - i,
{
    if i < path.len() {
        if path[i] == '/' {
            let directory = decided(rules.push(rule), path.subrange(0, i), true, ignored);
            lemma_last_decides(rules, rule, path, i + 1, directory);
        } else {
            lemma_last_decides(rules, rule, path, i + 1, ignored);
        }
    } else {
        assert(rules.push(rule).last() == rule);
    }
}

} // verus!
