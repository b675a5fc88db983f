//! Reading makefiles: options, rules, recipes and variables.
//!
//! Pattern rules, order-only prerequisites and continued lines outside recipes are refused rather
//! than guessed at.

use vstd::prelude::*;
use vstd::utf8::encode_utf8;

use crate::history::lemma_bind_length;
use crate::names::{lemma_nothing_new, lemma_with_new_twice, with_new};
use crate::numbers::{decimal, format_usize, parse_unsigned, read_unsigned};
use crate::order::{
    ascending, bind, lemma_bind_again, lemma_bind_ascending, lemma_lookup_bind, lookup, Duplicate, OrdMap,
};
use crate::system::{charged, reserved, Machine, System};
use crate::text::{
    after_prefix, before_suffix, char_at_or_after, chars_of, contains, copy_text, copy_texts, cut, cut_once, ends,
    ends_with, holds, index_from, is_space, is_whitespace, join, join3, joined, lemma_texts_push, line_list, lines,
    opt_text, same, split_once, split_whitespace, starts, starts_with, strip_prefix, strip_suffix, texts, trim,
    trim_end, trim_start, trimmed, trimmed_end, trimmed_start, word_list,
};

verus! {

pub const MAX_LINES: usize = 20_000;

pub const MAX_TARGETS: usize = 4_096;

pub const MAX_RECIPES: usize = 20_000;

pub const MAX_EXPANSION_DEPTH: usize = 16;

pub const MAX_EXPANDED_BYTES: usize = 4_194_304;

/// A message.
pub type Message = Seq<char>;

/// The message of a result.
pub open spec fn told<T>(r: Result<T, String>) -> Option<Message> {
    match r {
        Ok(_) => None,
        Err(e) => Some(e@),
    }
}

// ---------------------------------------------------------------------------
// Types
// ---------------------------------------------------------------------------

/// One recipe line with its line number in the source.
pub struct RecipeLine {
    pub line: usize,
    pub text: String,
}

impl View for RecipeLine {
    type V = (int, Seq<char>);

    open spec fn view(&self) -> (int, Seq<char>) {
        (self.line as int, self.text@)
    }
}

/// The recipe lines of a list.
pub open spec fn recipe_list(v: Seq<RecipeLine>) -> Seq<(int, Seq<char>)> {
    v.map_values(|r: RecipeLine| r@)
}

/// What a target needs and how it is made.
pub struct Rule {
    pub prerequisites: Vec<String>,
    pub recipes: Vec<RecipeLine>,
}

/// What a rule holds.
#[verifier::ext_equal]
pub struct Making {
    pub prerequisites: Seq<Seq<char>>,
    pub recipes: Seq<(int, Seq<char>)>,
}

impl View for Rule {
    type V = Making;

    open spec fn view(&self) -> Making {
        Making { prerequisites: texts(self.prerequisites@), recipes: recipe_list(self.recipes@) }
    }
}

impl Duplicate for Rule {
    fn duplicate(&self) -> (r: Self) {
        let mut recipes: Vec<RecipeLine> = Vec::new();
        let mut i: usize = 0;
        while i < self.recipes.len()
            invariant
                i <= self.recipes.len(),
                recipe_list(recipes@) == recipe_list(self.recipes@).take(i as int),
            decreases self.recipes.len() - i,
        {
            let ghost was = recipe_list(recipes@);
            let line = RecipeLine {
                line: self.recipes[i].line,
                text: copy_text(self.recipes[i].text.as_str()),
            };
            recipes.push(line);
            assert(recipe_list(recipes@) =~= was.push(line@));
            assert(recipe_list(self.recipes@).take(i + 1) =~= was.push(line@));
            i += 1;
        }
        assert(recipe_list(self.recipes@).take(i as int) =~= recipe_list(self.recipes@));
        Rule { prerequisites: copy_texts(self.prerequisites.as_slice()), recipes }
    }
}

/// A makefile that was read.
pub struct Makefile {
    pub vars: OrdMap<String>,
    pub rules: OrdMap<Rule>,
    /// The targets in the order of their first rule.
    pub order: Vec<String>,
    pub phony: OrdMap<()>,
    /// The last `export` or `unexport` of each variable that has one.
    pub export_state: OrdMap<bool>,
}

/// What a makefile holds.
#[verifier::ext_equal]
pub struct Sheet {
    pub vars: Seq<(Seq<char>, Seq<char>)>,
    pub rules: Seq<(Seq<char>, Making)>,
    pub order: Seq<Seq<char>>,
    pub phony: Seq<(Seq<char>, ())>,
    pub export_state: Seq<(Seq<char>, bool)>,
}

impl View for Makefile {
    type V = Sheet;

    open spec fn view(&self) -> Sheet {
        Sheet {
            vars: self.vars@,
            rules: self.rules@,
            order: texts(self.order@),
            phony: self.phony@,
            export_state: self.export_state@,
        }
    }
}

/// An empty makefile.
pub open spec fn empty_sheet() -> Sheet {
    Sheet { vars: seq![], rules: seq![], order: seq![], phony: seq![], export_state: seq![] }
}

// ---------------------------------------------------------------------------
// Options
// ---------------------------------------------------------------------------

/// The options of one invocation.
pub struct Options {
    pub file: Option<String>,
    pub directory: Option<String>,
    pub dry_run: bool,
    pub silent: bool,
    pub keep_going: bool,
    /// Accepted and checked; recipes run one at a time whatever it says.
    pub jobs: Option<u32>,
    pub targets: Vec<String>,
    pub command_vars: OrdMap<String>,
}

/// What options hold.
#[verifier::ext_equal]
pub struct Choice {
    pub file: Option<Seq<char>>,
    pub directory: Option<Seq<char>>,
    pub dry_run: bool,
    pub silent: bool,
    pub keep_going: bool,
    pub jobs: Option<u32>,
    pub targets: Seq<Seq<char>>,
    pub command_vars: Seq<(Seq<char>, Seq<char>)>,
}

impl View for Options {
    type V = Choice;

    open spec fn view(&self) -> Choice {
        Choice {
            file: opt_text(self.file),
            directory: opt_text(self.directory),
            dry_run: self.dry_run,
            silent: self.silent,
            keep_going: self.keep_going,
            jobs: self.jobs,
            targets: texts(self.targets@),
            command_vars: self.command_vars@,
        }
    }
}

/// No options at all.
pub open spec fn no_choice() -> Choice {
    Choice {
        file: None,
        directory: None,
        dry_run: false,
        silent: false,
        keep_going: false,
        jobs: None,
        targets: seq![],
        command_vars: seq![],
    }
}

/// A number of jobs.
pub open spec fn job_count(s: Seq<char>) -> Option<u32> {
    match read_unsigned(s, u32::MAX as nat) {
        Some(n) => Some(n as u32),
        None => None,
    }
}

/// Whether every character of `s[1..]` is one of the letters of the plain short options, and there
/// is one.
pub open spec fn plain_cluster(s: Seq<char>) -> bool {
    s.len() > 1 && forall|i: int|
        1 <= i < s.len() ==> (#[trigger] s[i] == 'n' || s[i] == 's' || s[i] == 'k')
}

/// Whether `c` may stand in the name of a variable, at its start or behind it.
pub open spec fn name_char(c: char, first: bool) -> bool {
    c == '_' || 'a' <= c <= 'z' || 'A' <= c <= 'Z' || (!first && '0' <= c <= '9')
}

/// Whether a text is the name of a variable.
pub open spec fn variable_name(s: Seq<char>) -> bool {
    s.len() > 0 && forall|i: int| 0 <= i < s.len() ==> name_char(#[trigger] s[i], i == 0)
}

/// The name and the value of an assignment `NAME=value` or `NAME:=value`.
pub open spec fn assignment_of(s: Seq<char>) -> Option<(Seq<char>, Seq<char>)> {
    match cut_once(s, '=') {
        None => None,
        Some((raw, value)) => {
            let name = trimmed(
                match before_suffix(raw, ":"@) {
                    Some(n) => n,
                    None => raw,
                },
            );
            if variable_name(name) {
                Some((name, trimmed(value)))
            } else {
                None
            }
        },
    }
}

/// The options once an operand is read; nothing where it is malformed.
pub open spec fn with_operand(arg: Seq<char>, c: Choice) -> Option<Choice> {
    match assignment_of(arg) {
        Some((name, value)) => Some(
            Choice { command_vars: bind(c.command_vars, name, value), ..c },
        ),
        None => if holds(arg, "="@) && !starts(arg, "-"@) {
            None
        } else {
            Some(Choice { targets: c.targets.push(arg), ..c })
        },
    }
}

/// The options once an argument before any `--` is read, together with how many arguments it
/// took; nothing where it is malformed.
pub open spec fn with_option(arg: Seq<char>, next: Option<Seq<char>>, c: Choice) -> Option<
    (int, Choice),
> {
    if arg == "-f"@ || arg == "--file"@ {
        if next is Some {
            Some((2, Choice { file: next, ..c }))
        } else {
            None
        }
    } else if arg == "-C"@ || arg == "--directory"@ {
        if next is Some {
            Some((2, Choice { directory: next, ..c }))
        } else {
            None
        }
    } else if arg == "-j"@ || arg == "--jobs"@ {
        if next is Some && job_count(next->0) is Some {
            Some((2, Choice { jobs: job_count(next->0), ..c }))
        } else {
            None
        }
    } else if starts(arg, "--jobs="@) {
        let jobs = job_count(after_prefix(arg, "--jobs="@)->0);
        if jobs is Some {
            Some((1, Choice { jobs, ..c }))
        } else {
            None
        }
    } else if starts(arg, "-j"@) {
        let jobs = job_count(after_prefix(arg, "-j"@)->0);
        if jobs is Some {
            Some((1, Choice { jobs, ..c }))
        } else {
            None
        }
    } else if arg == "--dry-run"@ {
        Some((1, Choice { dry_run: true, ..c }))
    } else if arg == "--silent"@ {
        Some((1, Choice { silent: true, ..c }))
    } else if arg == "--keep-going"@ {
        Some((1, Choice { keep_going: true, ..c }))
    } else if starts(arg, "-"@) && arg != "-"@ {
        if plain_cluster(arg) {
            Some(
                (
                    1,
                    Choice {
                        dry_run: c.dry_run || arg.contains('n'),
                        silent: c.silent || arg.contains('s'),
                        keep_going: c.keep_going || arg.contains('k'),
                        ..c
                    },
                ),
            )
        } else {
            None
        }
    } else {
        match with_operand(arg, c) {
            Some(d) => Some((1, d)),
            None => None,
        }
    }
}

/// The options once the arguments from `i` on are read; nothing where one is malformed.
pub open spec fn choice_from(args: Seq<Seq<char>>, i: int, operands_only: bool, c: Choice) -> Option<
    Choice,
>
    decreases args.len() - i,
{
    if i < 0 || i >= args.len() {
        Some(c)
    } else if operands_only {
        match with_operand(args[i], c) {
            Some(d) => choice_from(args, i + 1, true, d),
            None => None,
        }
    } else if args[i] == "--"@ {
        choice_from(args, i + 1, true, c)
    } else {
        let next = if i + 1 < args.len() {
            Some(args[i + 1])
        } else {
            None
        };
        match with_option(args[i], next, c) {
            Some((n, d)) => if n == 2 {
                choice_from(args, i + 2, false, d)
            } else {
                choice_from(args, i + 1, false, d)
            },
            None => None,
        }
    }
}

/// The options of a command line; nothing where an argument is malformed.
pub open spec fn choice_of(args: Seq<Seq<char>>) -> Option<Choice> {
    choice_from(args, 0, false, no_choice())
}

fn parse_jobs(s: &str) -> (r: Option<u32>)
    ensures
        r == job_count(s@),
{
    match parse_unsigned(s, u32::MAX as u64) {
        Some(n) => Some(n as u32),
        None => None,
    }
}

/// Whether a text is the name of a variable.
pub fn is_valid_var_name(name: &str) -> (r: bool)
    ensures
        r == variable_name(name@),
{
    let cs = chars_of(name);
    if cs.len() == 0 {
        return false;
    }
    let mut i: usize = 0;
    while i < cs.len()
        invariant
            i <= cs.len(),
            cs@ == name@,
            forall|k: int| 0 <= k < i ==> name_char(#[trigger] name@[k], k == 0),
        decreases cs.len() - i,
    {
        let c = cs[i];
        if !(c == '_' || ('a' <= c && c <= 'z') || ('A' <= c && c <= 'Z') || (i > 0 && '0' <= c && c
            <= '9')) {
            assert(!name_char(name@[i as int], i == 0));
            return false;
        }
        i += 1;
    }
    true
}

/// Reads an assignment `NAME=value` or `NAME:=value`. Both keep the right-hand side as it stands.
pub fn parse_assignment(value: &str) -> (r: Option<(String, String)>)
    ensures
        crate::text::opt_pair(r) == assignment_of(value@),
{
    let (raw, right) = match split_once(value, '=') {
        Some(pair) => pair,
        None => return None,
    };
    let stem = match strip_suffix(raw.as_str(), ":") {
        Some(n) => n,
        None => raw,
    };
    let name = trim(stem.as_str());
    if !is_valid_var_name(name.as_str()) {
        return None;
    }
    Some((name, trim(right.as_str())))
}

fn read_operand(arg: &str, o: Options) -> (r: Option<Options>)
    ensures
        match r {
            Some(p) => with_operand(arg@, o@) == Some(p@),
            None => with_operand(arg@, o@) is None,
        },
{
    broadcast use lemma_texts_push;

    let mut o = o;
    let ghost was = o@;
    match parse_assignment(arg) {
        Some((name, value)) => {
            o.command_vars.insert(name, value);
            assert(o@ =~= (Choice { command_vars: bind(was.command_vars, name@, value@), ..was }));
            Some(o)
        },
        None => {
            if contains(arg, "=") && !starts_with(arg, "-") {
                return None;
            }
            o.targets.push(copy_text(arg));
            assert(o@ =~= (Choice { targets: was.targets.push(arg@), ..was }));
            Some(o)
        },
    }
}

/// The letters of a cluster of plain short options.
fn read_cluster(arg: &str) -> (r: Option<(bool, bool, bool)>)
    requires
        arg@.len() > 0,
        arg@[0] == '-',
    ensures
        match r {
            Some((n, s, k)) => plain_cluster(arg@) && n == arg@.contains('n') && s == arg@.contains(
                's',
            ) && k == arg@.contains('k'),
            None => !plain_cluster(arg@),
        },
{
    let cs = chars_of(arg);
    if cs.len() < 2 {
        return None;
    }
    let mut n = false;
    let mut s = false;
    let mut k = false;
    let mut i: usize = 1;
    while i < cs.len()
        invariant
            1 <= i <= cs.len(),
            cs@ == arg@,
            arg@[0] == '-',
            forall|j: int|
                1 <= j < i ==> (#[trigger] arg@[j] == 'n' || arg@[j] == 's' || arg@[j] == 'k'),
            n == arg@.take(i as int).contains('n'),
            s == arg@.take(i as int).contains('s'),
            k == arg@.take(i as int).contains('k'),
        decreases cs.len() - i,
    {
        let c = cs[i];
        let ghost t = arg@.take(i as int);
        assert(arg@.take(i + 1) =~= t.push(c));
        proof {
            lemma_contains_push(t, c, 'n');
            lemma_contains_push(t, c, 's');
            lemma_contains_push(t, c, 'k');
        }
        if c == 'n' {
            n = true;
        } else if c == 's' {
            s = true;
        } else if c == 'k' {
            k = true;
        } else {
            assert(!(arg@[i as int] == 'n' || arg@[i as int] == 's' || arg@[i as int] == 'k'));
            return None;
        }
        i += 1;
    }
    assert(arg@.take(i as int) =~= arg@);
    Some((n, s, k))
}

proof fn lemma_contains_push(t: Seq<char>, c: char, x: char)
    ensures
        t.push(c).contains(x) == (t.contains(x) || c == x),
{
    let p = t.push(c);
    if t.contains(x) {
        let i = choose|i: int| 0 <= i < t.len() && t[i] == x;
        assert(p[i] == x);
    }
    if c == x {
        assert(p[t.len() as int] == x);
    }
    if p.contains(x) && c != x {
        let i = choose|i: int| 0 <= i < p.len() && p[i] == x;
        assert(t[i] == x);
    }
}

fn read_option(arg: &str, next: Option<&String>, o: Options) -> (r: Option<(usize, Options)>)
    ensures
        ({
            let n = match next {
                Some(s) => Some(s@),
                None => None,
            };
            match r {
                Some((k, p)) => with_option(arg@, n, o@) == Some((k as int, p@)),
                None => with_option(arg@, n, o@) is None,
            }
        }),
{
    let mut o = o;
    let ghost was = o@;
    if same(arg, "-f") || same(arg, "--file") {
        match next {
            Some(s) => {
                o.file = Some(copy_text(s.as_str()));
                Some((2, o))
            },
            None => None,
        }
    } else if same(arg, "-C") || same(arg, "--directory") {
        match next {
            Some(s) => {
                o.directory = Some(copy_text(s.as_str()));
                Some((2, o))
            },
            None => None,
        }
    } else if same(arg, "-j") || same(arg, "--jobs") {
        match next {
            Some(s) => match parse_jobs(s.as_str()) {
                Some(n) => {
                    o.jobs = Some(n);
                    Some((2, o))
                },
                None => None,
            },
            None => None,
        }
    } else if let Some(value) = strip_prefix(arg, "--jobs=") {
        match parse_jobs(value.as_str()) {
            Some(n) => {
                o.jobs = Some(n);
                Some((1, o))
            },
            None => None,
        }
    } else if let Some(value) = strip_prefix(arg, "-j") {
        match parse_jobs(value.as_str()) {
            Some(n) => {
                o.jobs = Some(n);
                Some((1, o))
            },
            None => None,
        }
    } else if same(arg, "--dry-run") {
        o.dry_run = true;
        Some((1, o))
    } else if same(arg, "--silent") {
        o.silent = true;
        Some((1, o))
    } else if same(arg, "--keep-going") {
        o.keep_going = true;
        Some((1, o))
    } else if starts_with(arg, "-") && !same(arg, "-") {
        proof {
            reveal_strlit("-");
            assert(arg@.subrange(0, 1)[0] == '-');
        }
        match read_cluster(arg) {
            Some((n, s, k)) => {
                o.dry_run = o.dry_run || n;
                o.silent = o.silent || s;
                o.keep_going = o.keep_going || k;
                Some((1, o))
            },
            None => None,
        }
    } else {
        match read_operand(arg, o) {
            Some(p) => Some((1, p)),
            None => None,
        }
    }
}

/// Reads the arguments; nothing for malformed or unknown options.
pub fn parse_args(args: &[String]) -> (r: Option<Options>)
    ensures
        match r {
            Some(o) => choice_of(texts(args@)) == Some(o@),
            None => choice_of(texts(args@)) is None,
        },
{
    let ghost all = texts(args@);
    let mut o = Options {
        file: None,
        directory: None,
        dry_run: false,
        silent: false,
        keep_going: false,
        jobs: None,
        targets: Vec::new(),
        command_vars: OrdMap::new(),
    };
    assert(o@ =~= no_choice());
    let mut operands_only = false;
    let mut i: usize = 0;
    while i < args.len()
        invariant
            i <= args.len(),
            all == texts(args@),
            choice_of(all) == choice_from(all, i as int, operands_only, o@),
        decreases args.len() - i,
    {
        let arg = args[i].as_str();
        assert(all[i as int] == arg@);
        if operands_only {
            match read_operand(arg, o) {
                Some(p) => {
                    o = p;
                },
                None => return None,
            }
            i += 1;
        } else if same(arg, "--") {
            operands_only = true;
            i += 1;
        } else {
            let next = if i + 1 < args.len() {
                assert(all[i + 1] == args@[i + 1]@);
                Some(&args[i + 1])
            } else {
                None
            };
            match read_option(arg, next, o) {
                Some((n, p)) => {
                    o = p;
                    if n == 2 {
                        i += 2;
                    } else {
                        i += 1;
                    }
                },
                None => return None,
            }
        }
    }
    Some(o)
}

/// What the marks in front of a recipe say: whether it is silent, whether its failure is ignored,
/// and the command.
pub open spec fn recipe_parts(s: Seq<char>, silent: bool, ignore: bool) -> (bool, bool, Seq<char>)
    decreases s.len(),
{
    if s.len() > 0 && s[0] == '@' {
        recipe_parts(s.subrange(1, s.len() as int), true, ignore)
    } else if s.len() > 0 && s[0] == '-' {
        recipe_parts(s.subrange(1, s.len() as int), silent, true)
    } else {
        (silent, ignore, trimmed_start(s))
    }
}

/// The marks in front of a recipe and its command.
pub fn recipe_prefixes(recipe: &str) -> (r: (bool, bool, String))
    ensures
        (r.0, r.1, r.2@) == recipe_parts(trimmed_start(recipe@), false, false),
{
    let command = trim_start(recipe);
    let cs = chars_of(command.as_str());
    let mut silent = false;
    let mut ignore_error = false;
    let mut i: usize = 0;
    assert(cs@.subrange(0, cs@.len() as int) =~= cs@);
    while i < cs.len() && (cs[i] == '@' || cs[i] == '-')
        invariant
            i <= cs.len(),
            cs@ == trimmed_start(recipe@),
            recipe_parts(trimmed_start(recipe@), false, false) == recipe_parts(
                cs@.subrange(i as int, cs@.len() as int),
                silent,
                ignore_error,
            ),
        decreases cs.len() - i,
    {
        let ghost rest = cs@.subrange(i as int, cs@.len() as int);
        assert(rest.subrange(1, rest.len() as int) =~= cs@.subrange(i + 1, cs@.len() as int));
        if cs[i] == '@' {
            silent = true;
        } else {
            ignore_error = true;
        }
        i += 1;
    }
    (silent, ignore_error, trim_start(cut(cs.as_slice(), i, cs.len()).as_str()))
}

// ---------------------------------------------------------------------------
// Variables
// ---------------------------------------------------------------------------

/// What references in a text may stand for.
pub struct Scope {
    pub vars: Seq<(Seq<char>, Seq<char>)>,
    pub target: Seq<char>,
    pub prerequisites: Seq<Seq<char>>,
}

/// Whether expanded text is too large.
pub open spec fn too_large(s: Seq<char>) -> bool {
    encode_utf8(s).len() > MAX_EXPANDED_BYTES
}

/// Whether a variable reference holds more than a name.
pub open spec fn strange_name(name: Seq<char>) -> bool {
    name.len() == 0 || name.contains(' ') || name.contains('\t') || name.contains(':')
}

/// `source[i..]` behind `out`, its references replaced. Recursion ends at `depth`.
pub open spec fn expansion_from(
    source: Seq<char>,
    i: int,
    out: Seq<char>,
    scope: Scope,
    depth: nat,
) -> Result<Seq<char>, Message>
    decreases depth, source.len() - i,
{
    if depth == 0 {
        Err("variable expansion is too recursive"@)
    } else if i < 0 || i >= source.len() {
        Ok(out)
    } else if source[i] == '$' && i + 1 >= source.len() {
        Ok(out.push('$'))
    } else if source[i] == '$' && source[i + 1] == '(' {
        match index_from(source, ')', i + 2) {
            None => Err("unterminated variable reference"@),
            Some(end) => {
                let name = source.subrange(i + 2, end);
                if strange_name(name) {
                    Err("unsupported variable expression '$("@ + name + ")'"@)
                } else {
                    let value = match lookup(scope.vars, name) {
                        Some(v) => v,
                        None => ""@,
                    };
                    match expansion_from(value, 0, seq![], scope, (depth - 1) as nat) {
                        Err(e) => Err(e),
                        Ok(inner) => if too_large(out + inner) {
                            Err("variable expansion is too large"@)
                        } else if i < end < source.len() {
                            expansion_from(source, end + 1, out + inner, scope, depth)
                        } else {
                            Ok(out)
                        },
                    }
                }
            },
        }
    } else {
        let (next, n) = if source[i] != '$' {
            (out.push(source[i]), i + 1)
        } else if source[i + 1] == '$' {
            (out.push('$'), i + 2)
        } else if source[i + 1] == '@' {
            (out + scope.target, i + 2)
        } else if source[i + 1] == '<' {
            (
                out + (if scope.prerequisites.len() > 0 {
                    scope.prerequisites[0]
                } else {
                    ""@
                }),
                i + 2,
            )
        } else if source[i + 1] == '^' {
            (out + joined(scope.prerequisites, " "@), i + 2)
        } else {
            (out.push('$'), i + 1)
        };
        if too_large(next) {
            Err("variable expansion is too large"@)
        } else {
            expansion_from(source, n, next, scope, depth)
        }
    }
}

/// A text with its references replaced.
pub open spec fn expansion(source: Seq<char>, scope: Scope, depth: nat) -> Result<Seq<char>, Message> {
    expansion_from(source, 0, seq![], scope, depth)
}

/// What the result of an expansion says.
pub open spec fn text_result(r: Result<String, String>) -> Result<Seq<char>, Message> {
    match r {
        Ok(s) => Ok(s@),
        Err(e) => Err(e@),
    }
}

fn is_too_large(s: &str) -> (r: bool)
    ensures
        r == too_large(s@),
{
    s.as_bytes().len() > MAX_EXPANDED_BYTES
}

fn is_strange_name(cs: &[char]) -> (r: bool)
    ensures
        r == strange_name(cs@),
{
    if cs.len() == 0 {
        return true;
    }
    let mut i: usize = 0;
    while i < cs.len()
        invariant
            i <= cs.len(),
            cs@.len() > 0,
            forall|k: int|
                0 <= k < i ==> #[trigger] cs@[k] != ' ' && cs@[k] != '\t' && cs@[k] != ':',
        decreases cs.len() - i,
    {
        if cs[i] == ' ' || cs[i] == '\t' || cs[i] == ':' {
            assert(cs@.contains(cs@[i as int]));
            return true;
        }
        i += 1;
    }
    false
}

/// Replaces the references of a text: `$(NAME)` by the variable, `$@` by the target, `$<` by the
/// first prerequisite, `$^` by all of them, `$$` by a dollar sign.
pub fn expand_vars(
    source: &str,
    vars: &OrdMap<String>,
    target: &str,
    prerequisites: &[String],
    depth: usize,
) -> (r: Result<String, String>)
    ensures
        text_result(r) == expansion(
            source@,
            Scope { vars: vars@, target: target@, prerequisites: texts(prerequisites@) },
            depth as nat,
        ),
    decreases depth,
{
    if depth == 0 {
        return Err(copy_text("variable expansion is too recursive"));
    }
    let ghost scope = Scope { vars: vars@, target: target@, prerequisites: texts(prerequisites@) };
    let cs = chars_of(source);
    let mut output = String::new();
    let mut i: usize = 0;
    assert(output@ =~= seq![]);
    while i < cs.len()
        invariant
            i <= cs.len(),
            cs@ == source@,
            depth > 0,
            scope == (Scope {
                vars: vars@,
                target: target@,
                prerequisites: texts(prerequisites@),
            }),
            expansion(source@, scope, depth as nat) == expansion_from(
                source@,
                i as int,
                output@,
                scope,
                depth as nat,
            ),
        decreases cs.len() - i,
    {
        if cs[i] != '$' {
            output.push(cs[i]);
            i += 1;
        } else if i + 1 >= cs.len() {
            output.push('$');
            return Ok(output);
        } else if cs[i + 1] == '(' {
            let end = match char_at_or_after(cs.as_slice(), ')', i + 2) {
                Some(end) => end,
                None => return Err(copy_text("unterminated variable reference")),
            };
            let name = cut(cs.as_slice(), i + 2, end);
            if is_strange_name(vstd::slice::slice_subrange(cs.as_slice(), i + 2, end)) {
                return Err(join3("unsupported variable expression '$(", name.as_str(), ")'"));
            }
            let value = match vars.get(name.as_str()) {
                Some(v) => copy_text(v.as_str()),
                None => copy_text(""),
            };
            let inner = match expand_vars(value.as_str(), vars, target, prerequisites, depth - 1) {
                Ok(inner) => inner,
                Err(e) => return Err(e),
            };
            output.append(inner.as_str());
            i = end + 1;
        } else if cs[i + 1] == '$' {
            output.push('$');
            i += 2;
        } else if cs[i + 1] == '@' {
            output.append(target);
            i += 2;
        } else if cs[i + 1] == '<' {
            if prerequisites.len() > 0 {
                assert(scope.prerequisites[0] == prerequisites@[0]@);
                output.append(prerequisites[0].as_str());
            } else {
                output.append("");
            }
            i += 2;
        } else if cs[i + 1] == '^' {
            output.append(join(prerequisites, " ").as_str());
            i += 2;
        } else {
            output.push('$');
            i += 1;
        }
        if is_too_large(output.as_str()) {
            return Err(copy_text("variable expansion is too large"));
        }
    }
    Ok(output)
}

// ---------------------------------------------------------------------------
// Lines
// ---------------------------------------------------------------------------

/// What stands before the first `#`.
pub open spec fn before_comment(s: Seq<char>) -> Seq<char> {
    match cut_once(s, '#') {
        Some((head, _)) => head,
        None => s,
    }
}

/// Whether a line goes on behind its end.
pub open spec fn continued(s: Seq<char>) -> bool {
    ends(trimmed_end(s), "\\"@)
}

/// A message about a line.
pub open spec fn at_line(what: Seq<char>, n: int) -> Message {
    what + " at line "@ + decimal(n as nat)
}

/// The lines from `i` on, each with its number, recipes joined with their continuations;
/// `pending` is a recipe that still goes on.
pub open spec fn joined_lines(
    lines: Seq<Seq<char>>,
    i: int,
    done: Seq<(int, Seq<char>)>,
    pending: Option<(int, Seq<char>)>,
) -> Result<Seq<(int, Seq<char>)>, Message>
    decreases lines.len() - i,
{
    if i < 0 || i >= lines.len() {
        match pending {
            Some((n, _)) => Err(at_line("unterminated recipe continuation"@, n)),
            None => Ok(done),
        }
    } else if i >= MAX_LINES {
        Err("line limit exceeded ("@ + decimal(MAX_LINES as nat) + ")"@)
    } else {
        let raw = lines[i];
        match pending {
            Some((n, text)) => {
                let more = match after_prefix(raw, "\t"@) {
                    Some(rest) => rest,
                    None => raw,
                };
                let whole = text + "\n"@ + more;
                if continued(raw) {
                    joined_lines(lines, i + 1, done, Some((n, whole)))
                } else {
                    joined_lines(lines, i + 1, done.push((n, whole)), None)
                }
            },
            None => {
                let is_recipe = starts(raw, "\t"@);
                if continued(if is_recipe {
                    raw
                } else {
                    before_comment(raw)
                }) {
                    if !is_recipe {
                        Err(at_line("line continuation is unsupported"@, i + 1))
                    } else {
                        joined_lines(lines, i + 1, done, Some((i + 1, raw)))
                    }
                } else {
                    joined_lines(lines, i + 1, done.push((i + 1, raw)), None)
                }
            },
        }
    }
}

fn comment_cut(s: &str) -> (r: String)
    ensures
        r@ == before_comment(s@),
{
    match split_once(s, '#') {
        Some((head, _)) => head,
        None => copy_text(s),
    }
}

fn is_continued(s: &str) -> (r: bool)
    ensures
        r == continued(s@),
{
    ends_with(trim_end(s).as_str(), "\\")
}

fn line_message(what: &str, n: usize) -> (r: String)
    ensures
        r@ == at_line(what@, n as int),
{
    join3(what, " at line ", format_usize(n).as_str())
}

/// The lines of a source, recipes joined with their continuations.
fn logical_make_lines(source: &str) -> (r: Result<Vec<RecipeLine>, String>)
    ensures
        match r {
            Ok(v) => joined_lines(line_list(source@), 0, seq![], None) == Ok::<
                Seq<(int, Seq<char>)>,
                Message,
            >(recipe_list(v@)),
            Err(e) => joined_lines(line_list(source@), 0, seq![], None) == Err::<
                Seq<(int, Seq<char>)>,
                Message,
            >(e@),
        },
{
    let raw_lines = lines(source);
    let ghost list = line_list(source@);
    let ghost goal = joined_lines(list, 0, seq![], None);
    let mut out: Vec<RecipeLine> = Vec::new();
    let mut pending: Option<RecipeLine> = None;
    let mut i: usize = 0;
    assert(recipe_list(out@) =~= seq![]);
    while i < raw_lines.len()
        invariant
            i <= raw_lines.len(),
            texts(raw_lines@) == list,
            list == line_list(source@),
            goal == joined_lines(list, 0, seq![], None),
            goal == joined_lines(
                list,
                i as int,
                recipe_list(out@),
                match pending {
                    Some(p) => Some(p@),
                    None => None,
                },
            ),
        decreases raw_lines.len() - i,
    {
        assert(list[i as int] == raw_lines@[i as int]@);
        if i >= MAX_LINES {
            return Err(join3("line limit exceeded (", format_usize(MAX_LINES).as_str(), ")"));
        }
        let raw = raw_lines[i].as_str();
        let ghost was = recipe_list(out@);
        match pending {
            Some(p) => {
                let more = match strip_prefix(raw, "\t") {
                    Some(rest) => rest,
                    None => copy_text(raw),
                };
                let whole = RecipeLine {
                    line: p.line,
                    text: join3(p.text.as_str(), "\n", more.as_str()),
                };
                if is_continued(raw) {
                    pending = Some(whole);
                } else {
                    out.push(whole);
                    assert(recipe_list(out@) =~= was.push(whole@));
                    pending = None;
                }
            },
            None => {
                let is_recipe = starts_with(raw, "\t");
                let meaningful = if is_recipe {
                    copy_text(raw)
                } else {
                    comment_cut(raw)
                };
                let line = RecipeLine { line: i + 1, text: copy_text(raw) };
                if is_continued(meaningful.as_str()) {
                    if !is_recipe {
                        return Err(line_message("line continuation is unsupported", i + 1));
                    }
                    pending = Some(line);
                } else {
                    out.push(line);
                    assert(recipe_list(out@) =~= was.push(line@));
                    pending = None;
                }
            },
        }
        i += 1;
    }
    match pending {
        Some(p) => Err(line_message("unterminated recipe continuation", p.line)),
        None => Ok(out),
    }
}

// ---------------------------------------------------------------------------
// Rules
// ---------------------------------------------------------------------------

/// Where the reading of a makefile stands: what was read, the targets that a recipe now belongs
/// to, whether one of them has a recipe already, and how many recipe lines there were.
pub struct Reading {
    pub sheet: Sheet,
    pub targets: Seq<Seq<char>>,
    pub prior: bool,
    pub recipes: int,
}

/// A reading that no recipe belongs to now.
pub open spec fn loose(r: Reading, sheet: Sheet) -> Reading {
    Reading { sheet, targets: seq![], prior: false, recipes: r.recipes }
}

/// Whether a name cannot be a target or prerequisite.
pub open spec fn bad_name(name: Seq<char>) -> bool {
    name.len() == 0 || holds(name, "%"@) || holds(name, "$"@)
}

/// The message about such a name.
pub open spec fn bad_name_message(name: Seq<char>, n: int) -> Message {
    at_line("unsupported target or prerequisite '"@ + name + "'"@, n)
}

/// The rules with one more recipe line for each target.
pub open spec fn with_recipe(
    rules: Seq<(Seq<char>, Making)>,
    targets: Seq<Seq<char>>,
    line: (int, Seq<char>),
) -> Result<Seq<(Seq<char>, Making)>, Message>
    decreases targets.len(),
{
    if targets.len() == 0 {
        Ok(rules)
    } else {
        match lookup(rules, targets[0]) {
            None => Err("internal rule state error"@),
            Some(m) => with_recipe(
                bind(
                    rules,
                    targets[0],
                    Making { prerequisites: m.prerequisites, recipes: m.recipes.push(line) },
                ),
                targets.subrange(1, targets.len() as int),
                line,
            ),
        }
    }
}

/// The reading after a recipe line.
pub open spec fn after_recipe(r: Reading, n: int, recipe: Seq<char>) -> Result<Reading, Message> {
    if r.targets.len() == 0 {
        Err(at_line("recipe without a target"@, n))
    } else if r.prior {
        Err(at_line("target has multiple recipe definitions"@, n))
    } else if r.recipes + 1 > MAX_RECIPES {
        Err("recipe limit exceeded ("@ + decimal(MAX_RECIPES as nat) + ")"@)
    } else {
        match with_recipe(r.sheet.rules, r.targets, (n, recipe)) {
            Ok(rules) => Ok(
                Reading {
                    sheet: Sheet { rules, ..r.sheet },
                    recipes: r.recipes + 1,
                    ..r
                },
            ),
            Err(e) => Err(e),
        }
    }
}

/// The phony targets with those of `names` added.
pub open spec fn with_phony(
    phony: Seq<(Seq<char>, ())>,
    names: Seq<Seq<char>>,
    n: int,
) -> Result<Seq<(Seq<char>, ())>, Message>
    decreases names.len(),
{
    if names.len() == 0 {
        Ok(phony)
    } else if bad_name(names[0]) {
        Err(bad_name_message(names[0], n))
    } else {
        with_phony(bind(phony, names[0], ()), names.subrange(1, names.len() as int), n)
    }
}

/// The export state with `value` for each of `names`.
pub open spec fn with_exports(
    state: Seq<(Seq<char>, bool)>,
    names: Seq<Seq<char>>,
    value: bool,
    n: int,
) -> Result<Seq<(Seq<char>, bool)>, Message>
    decreases names.len(),
{
    if names.len() == 0 {
        Ok(state)
    } else if !variable_name(names[0]) {
        Err(at_line("unsupported export target '"@ + names[0] + "'"@, n))
    } else {
        with_exports(
            bind(state, names[0], value),
            names.subrange(1, names.len() as int),
            value,
            n,
        )
    }
}

/// What stands behind a directive word, where the line is that directive.
pub open spec fn directive(line: Seq<char>, word: Seq<char>) -> Option<Seq<char>> {
    match after_prefix(line, word) {
        Some(rest) => if rest.len() == 0 || is_space(rest[0]) {
            Some(trimmed_start(rest))
        } else {
            None
        },
        None => None,
    }
}

/// The reading after an `export` line.
pub open spec fn after_export(r: Reading, n: int, rest: Seq<char>) -> Result<Reading, Message> {
    if rest.len() == 0 {
        Err(at_line("unsupported directive"@, n))
    } else {
        match assignment_of(rest) {
            Some((name, value)) => Ok(
                loose(
                    r,
                    Sheet {
                        vars: bind(r.sheet.vars, name, value),
                        export_state: bind(r.sheet.export_state, name, true),
                        ..r.sheet
                    },
                ),
            ),
            None => match with_exports(r.sheet.export_state, word_list(rest), true, n) {
                Ok(export_state) => Ok(loose(r, Sheet { export_state, ..r.sheet })),
                Err(e) => Err(e),
            },
        }
    }
}

/// The reading after an `unexport` line.
pub open spec fn after_unexport(r: Reading, n: int, rest: Seq<char>) -> Result<Reading, Message> {
    if rest.len() == 0 {
        Err(at_line("unsupported directive"@, n))
    } else {
        match with_exports(r.sheet.export_state, word_list(rest), false, n) {
            Ok(export_state) => Ok(loose(r, Sheet { export_state, ..r.sheet })),
            Err(e) => Err(e),
        }
    }
}

/// What is wrong with the prerequisites of a rule, if anything is.
pub open spec fn bad_prerequisite(names: Seq<Seq<char>>, n: int) -> Option<Message>
    decreases names.len(),
{
    if names.len() == 0 {
        None
    } else if names[0] == "|"@ {
        Some(at_line("order-only prerequisites are unsupported"@, n))
    } else if !(starts(names[0], "$("@) && ends(names[0], ")"@)) && bad_name(names[0]) {
        Some(bad_name_message(names[0], n))
    } else {
        bad_prerequisite(names.subrange(1, names.len() as int), n)
    }
}

/// The reading once each of `names` is a target with the given prerequisites.
pub open spec fn with_targets(
    r: Reading,
    names: Seq<Seq<char>>,
    prerequisites: Seq<Seq<char>>,
    n: int,
) -> Result<Reading, Message>
    decreases names.len(),
{
    if names.len() == 0 {
        Ok(r)
    } else {
        let name = names[0];
        let known = lookup(r.sheet.rules, name);
        if bad_name(name) {
            Err(bad_name_message(name, n))
        } else if r.sheet.rules.len() >= MAX_TARGETS && known is None {
            Err("target limit exceeded ("@ + decimal(MAX_TARGETS as nat) + ")"@)
        } else {
            let old_rule = match known {
                Some(m) => m,
                None => Making { prerequisites: seq![], recipes: seq![] },
            };
            let rule = Making {
                prerequisites: old_rule.prerequisites + prerequisites,
                recipes: old_rule.recipes,
            };
            with_targets(
                Reading {
                    sheet: Sheet {
                        rules: bind(r.sheet.rules, name, rule),
                        order: if known is None {
                            r.sheet.order.push(name)
                        } else {
                            r.sheet.order
                        },
                        ..r.sheet
                    },
                    targets: r.targets.push(name),
                    prior: r.prior || old_rule.recipes.len() > 0,
                    recipes: r.recipes,
                },
                names.subrange(1, names.len() as int),
                prerequisites,
                n,
            )
        }
    }
}

/// The reading after a rule line; its references are replaced first.
pub open spec fn after_rule(r: Reading, n: int, line: Seq<char>) -> Result<Reading, Message> {
    let scope = Scope { vars: r.sheet.vars, target: ""@, prerequisites: seq![] };
    match expansion(line, scope, MAX_EXPANSION_DEPTH as nat) {
        Err(e) => Err(e),
        Ok(whole) => match cut_once(whole, ':') {
            None => Err(at_line("missing ':'"@, n)),
            Some((left, right)) => if word_list(left).len() == 0 {
                Err(at_line("empty target"@, n))
            } else {
                match bad_prerequisite(word_list(right), n) {
                    Some(e) => Err(e),
                    None => with_targets(loose(r, r.sheet), word_list(left), word_list(right), n),
                }
            },
        },
    }
}

/// The reading after one line.
pub open spec fn after_line(r: Reading, n: int, raw: Seq<char>) -> Result<Reading, Message> {
    let line = trimmed(before_comment(raw));
    if starts(raw, "\t"@) {
        after_recipe(r, n, after_prefix(raw, "\t"@)->0)
    } else if line.len() == 0 {
        Ok(r)
    } else if starts(line, "."@) {
        match after_prefix(line, ".PHONY:"@) {
            None => Err(at_line("unsupported directive"@, n)),
            Some(rest) => match with_phony(r.sheet.phony, word_list(rest), n) {
                Ok(phony) => Ok(loose(r, Sheet { phony, ..r.sheet })),
                Err(e) => Err(e),
            },
        }
    } else if directive(line, "export"@) is Some {
        after_export(r, n, directive(line, "export"@)->0)
    } else if directive(line, "unexport"@) is Some {
        after_unexport(r, n, directive(line, "unexport"@)->0)
    } else {
        match assignment_of(line) {
            Some((name, value)) => Ok(
                loose(r, Sheet { vars: bind(r.sheet.vars, name, value), ..r.sheet }),
            ),
            None => after_rule(r, n, line),
        }
    }
}

/// The reading after all the lines from `i` on.
pub open spec fn after_lines(r: Reading, lines: Seq<(int, Seq<char>)>, i: int) -> Result<
    Reading,
    Message,
>
    decreases lines.len() - i,
{
    if i < 0 || i >= lines.len() {
        Ok(r)
    } else {
        match after_line(r, lines[i].0, lines[i].1) {
            Ok(s) => after_lines(s, lines, i + 1),
            Err(e) => Err(e),
        }
    }
}

/// The makefile that a source holds.
pub open spec fn sheet_of(source: Seq<char>) -> Result<Sheet, Message> {
    let start = Reading { sheet: empty_sheet(), targets: seq![], prior: false, recipes: 0 };
    match joined_lines(line_list(source), 0, seq![], None) {
        Err(e) => Err(e),
        Ok(lines) => match after_lines(start, lines, 0) {
            Ok(r) => Ok(r.sheet),
            Err(e) => Err(e),
        },
    }
}

/// The makefile that a source holds, and the machine once its reading is paid for.
pub open spec fn metered_sheet(m: Machine, source: Seq<char>) -> (Machine, Result<Sheet, Message>) {
    let n = encode_utf8(source).len() as int;
    let (paid, m1) = charged(m, n);
    let (kept, m2) = reserved(
        m1,
        if 2 * n <= u64::MAX {
            2 * n
        } else {
            u64::MAX as int
        },
    );
    if !paid {
        (m1, Err("resource limit exceeded while reading makefile"@))
    } else if !kept {
        (m2, Err("resource limit exceeded while reading makefile"@))
    } else {
        (m2, sheet_of(source))
    }
}

/// Refuses a name that cannot be a target or prerequisite.
pub fn validate_name(name: &str, line: usize) -> (r: Result<(), String>)
    ensures
        match r {
            Ok(()) => !bad_name(name@),
            Err(e) => bad_name(name@) && e@ == bad_name_message(name@, line as int),
        },
{
    if name.is_empty() || contains(name, "%") || contains(name, "$") {
        return Err(
            line_message(
                join3("unsupported target or prerequisite '", name, "'").as_str(),
                line,
            ),
        );
    }
    Ok(())
}

/// The reading of a makefile under way.
struct Reader {
    sheet: Makefile,
    targets: Vec<String>,
    prior: bool,
    recipes: usize,
}

impl View for Reader {
    type V = Reading;

    closed spec fn view(&self) -> Reading {
        Reading {
            sheet: self.sheet@,
            targets: texts(self.targets@),
            prior: self.prior,
            recipes: self.recipes as int,
        }
    }
}

/// Whether a step did what `goal` says; a refused one may leave the reading anyhow.
spec fn step_done(r: Result<(), String>, after: Reading, goal: Result<Reading, Message>) -> bool {
    match goal {
        Ok(g) => r is Ok && after == g,
        Err(e) => r is Err && r->Err_0@ == e,
    }
}

impl Reader {
    fn let_go(&mut self)
        ensures
            final(self)@ == loose(old(self)@, old(self)@.sheet),
    {
        self.targets = Vec::new();
        self.prior = false;
        assert(texts(self.targets@) =~= seq![]);
    }

    fn add_recipe(&mut self, n: usize, recipe: &str) -> (r: Result<(), String>)
        ensures
            step_done(r, final(self)@, after_recipe(old(self)@, n as int, recipe@)),
    {
        if self.targets.len() == 0 {
            return Err(line_message("recipe without a target", n));
        }
        if self.prior {
            return Err(line_message("target has multiple recipe definitions", n));
        }
        if self.recipes >= MAX_RECIPES {
            return Err(
                join3("recipe limit exceeded (", format_usize(MAX_RECIPES).as_str(), ")"),
            );
        }
        let ghost start = self@;
        let ghost all = texts(self.targets@);
        let ghost line = (n as int, recipe@);
        self.recipes += 1;
        let mut i: usize = 0;
        assert(all.subrange(0, all.len() as int) =~= all);
        while i < self.targets.len()
            invariant
                i <= self.targets.len(),
                all == texts(self.targets@),
                line == (n as int, recipe@),
                start == old(self)@,
                all == start.targets,
                start.targets.len() > 0,
                !start.prior,
                start.recipes + 1 <= MAX_RECIPES,
                self@ == (Reading {
                    sheet: Sheet { rules: self.sheet.rules@, ..start.sheet },
                    recipes: start.recipes + 1,
                    ..start
                }),
                with_recipe(start.sheet.rules, all, line) == with_recipe(
                    self.sheet.rules@,
                    all.subrange(i as int, all.len() as int),
                    line,
                ),
            decreases self.targets.len() - i,
        {
            let ghost rest = all.subrange(i as int, all.len() as int);
            assert(rest[0] == self.targets@[i as int]@);
            assert(rest.subrange(1, rest.len() as int) =~= all.subrange(i + 1, all.len() as int));
            let mut rule = match self.sheet.rules.get(self.targets[i].as_str()) {
                Some(rule) => rule.duplicate(),
                None => return Err(copy_text("internal rule state error")),
            };
            let ghost was = rule@;
            let added = RecipeLine { line: n, text: copy_text(recipe) };
            rule.recipes.push(added);
            assert(rule@ =~= (Making {
                prerequisites: was.prerequisites,
                recipes: was.recipes.push(line),
            }));
            self.sheet.rules.insert(copy_text(self.targets[i].as_str()), rule);
            i += 1;
        }
        Ok(())
    }

    fn add_phony(&mut self, names: &[String], n: usize) -> (r: Result<(), String>)
        ensures
            match r {
                Ok(()) => with_phony(old(self)@.sheet.phony, texts(names@), n as int) == Ok::<
                    Seq<(Seq<char>, ())>,
                    Message,
                >(final(self)@.sheet.phony) && final(self)@ == (Reading {
                    sheet: Sheet { phony: final(self)@.sheet.phony, ..old(self)@.sheet },
                    ..old(self)@
                }),
                Err(e) => with_phony(old(self)@.sheet.phony, texts(names@), n as int) == Err::<
                    Seq<(Seq<char>, ())>,
                    Message,
                >(e@),
            },
    {
        let ghost start = self@;
        let ghost all = texts(names@);
        let mut i: usize = 0;
        assert(all.subrange(0, all.len() as int) =~= all);
        while i < names.len()
            invariant
                i <= names.len(),
                all == texts(names@),
                start == old(self)@,
                self@ == (Reading {
                    sheet: Sheet { phony: self.sheet.phony@, ..start.sheet },
                    ..start
                }),
                with_phony(start.sheet.phony, all, n as int) == with_phony(
                    self.sheet.phony@,
                    all.subrange(i as int, all.len() as int),
                    n as int,
                ),
            decreases names.len() - i,
        {
            let ghost rest = all.subrange(i as int, all.len() as int);
            assert(rest[0] == names@[i as int]@);
            assert(rest.subrange(1, rest.len() as int) =~= all.subrange(i + 1, all.len() as int));
            match validate_name(names[i].as_str(), n) {
                Ok(()) => {},
                Err(e) => return Err(e),
            }
            self.sheet.phony.insert(copy_text(names[i].as_str()), ());
            i += 1;
        }
        Ok(())
    }

    fn add_exports(&mut self, names: &[String], value: bool, n: usize) -> (r: Result<(), String>)
        ensures
            match r {
                Ok(()) => with_exports(
                    old(self)@.sheet.export_state,
                    texts(names@),
                    value,
                    n as int,
                ) == Ok::<Seq<(Seq<char>, bool)>, Message>(final(self)@.sheet.export_state)
                    && final(self)@ == (Reading {
                    sheet: Sheet {
                        export_state: final(self)@.sheet.export_state,
                        ..old(self)@.sheet
                    },
                    ..old(self)@
                }),
                Err(e) => with_exports(
                    old(self)@.sheet.export_state,
                    texts(names@),
                    value,
                    n as int,
                ) == Err::<Seq<(Seq<char>, bool)>, Message>(e@),
            },
    {
        let ghost start = self@;
        let ghost all = texts(names@);
        let mut i: usize = 0;
        assert(all.subrange(0, all.len() as int) =~= all);
        while i < names.len()
            invariant
                i <= names.len(),
                all == texts(names@),
                start == old(self)@,
                self@ == (Reading {
                    sheet: Sheet { export_state: self.sheet.export_state@, ..start.sheet },
                    ..start
                }),
                with_exports(start.sheet.export_state, all, value, n as int) == with_exports(
                    self.sheet.export_state@,
                    all.subrange(i as int, all.len() as int),
                    value,
                    n as int,
                ),
            decreases names.len() - i,
        {
            let ghost rest = all.subrange(i as int, all.len() as int);
            assert(rest[0] == names@[i as int]@);
            assert(rest.subrange(1, rest.len() as int) =~= all.subrange(i + 1, all.len() as int));
            if !is_valid_var_name(names[i].as_str()) {
                return Err(
                    line_message(
                        join3("unsupported export target '", names[i].as_str(), "'").as_str(),
                        n,
                    ),
                );
            }
            self.sheet.export_state.insert(copy_text(names[i].as_str()), value);
            i += 1;
        }
        Ok(())
    }

    fn add_export_line(&mut self, rest: &str, n: usize) -> (r: Result<(), String>)
        ensures
            step_done(r, final(self)@, after_export(old(self)@, n as int, rest@)),
    {
        if rest.is_empty() {
            return Err(line_message("unsupported directive", n));
        }
        match parse_assignment(rest) {
            Some((name, value)) => {
                self.sheet.export_state.insert(copy_text(name.as_str()), true);
                self.sheet.vars.insert(name, value);
            },
            None => {
                let words = split_whitespace(rest);
                match self.add_exports(words.as_slice(), true, n) {
                    Ok(()) => {},
                    Err(e) => return Err(e),
                }
            },
        }
        self.let_go();
        Ok(())
    }

    fn add_unexport_line(&mut self, rest: &str, n: usize) -> (r: Result<(), String>)
        ensures
            step_done(r, final(self)@, after_unexport(old(self)@, n as int, rest@)),
    {
        if rest.is_empty() {
            return Err(line_message("unsupported directive", n));
        }
        let words = split_whitespace(rest);
        match self.add_exports(words.as_slice(), false, n) {
            Ok(()) => {},
            Err(e) => return Err(e),
        }
        self.let_go();
        Ok(())
    }

    fn add_targets(&mut self, names: &[String], prerequisites: &[String], n: usize) -> (r: Result<
        (),
        String,
    >)
        ensures
            step_done(
                r,
                final(self)@,
                with_targets(old(self)@, texts(names@), texts(prerequisites@), n as int),
            ),
    {
        let ghost start = self@;
        let ghost all = texts(names@);
        let ghost needed = texts(prerequisites@);
        let ghost goal = with_targets(start, all, needed, n as int);
        let mut i: usize = 0;
        assert(all.subrange(0, all.len() as int) =~= all);
        while i < names.len()
            invariant
                i <= names.len(),
                all == texts(names@),
                needed == texts(prerequisites@),
                start == old(self)@,
                goal == with_targets(start, all, needed, n as int),
                goal == with_targets(
                    self@,
                    all.subrange(i as int, all.len() as int),
                    needed,
                    n as int,
                ),
            decreases names.len() - i,
        {
            broadcast use lemma_texts_push;

            let ghost rest = all.subrange(i as int, all.len() as int);
            assert(rest[0] == names@[i as int]@);
            assert(rest.subrange(1, rest.len() as int) =~= all.subrange(i + 1, all.len() as int));
            let name = names[i].as_str();
            match validate_name(name, n) {
                Ok(()) => {},
                Err(e) => return Err(e),
            }
            let known = self.sheet.rules.contains_key(name);
            if self.sheet.rules.len() >= MAX_TARGETS && !known {
                return Err(
                    join3("target limit exceeded (", format_usize(MAX_TARGETS).as_str(), ")"),
                );
            }
            let ghost here = self@;
            let mut rule = match self.sheet.rules.get(name) {
                Some(rule) => rule.duplicate(),
                None => Rule { prerequisites: Vec::new(), recipes: Vec::new() },
            };
            let ghost was = rule@;
            assert(lookup(here.sheet.rules, name@) is None ==> was =~= (Making {
                prerequisites: seq![],
                recipes: seq![],
            }));
            let has_recipe = rule.recipes.len() > 0;
            let mut more = copy_texts(prerequisites);
            let ghost before = rule.prerequisites@;
            let ghost extra = more@;
            rule.prerequisites.append(&mut more);
            assert(texts(before + extra) =~= texts(before) + texts(extra));
            assert(rule@ =~= (Making {
                prerequisites: was.prerequisites + needed,
                recipes: was.recipes,
            }));
            self.sheet.rules.insert(copy_text(name), rule);
            if !known {
                self.sheet.order.push(copy_text(name));
            }
            self.prior = self.prior || has_recipe;
            self.targets.push(copy_text(name));
            i += 1;
        }
        Ok(())
    }

    fn add_rule(&mut self, line: &str, n: usize) -> (r: Result<(), String>)
        ensures
            step_done(r, final(self)@, after_rule(old(self)@, n as int, line@)),
    {
        let none: Vec<String> = Vec::new();
        assert(texts(none@) =~= seq![]);
        let whole = match expand_vars(
            line,
            &self.sheet.vars,
            "",
            none.as_slice(),
            MAX_EXPANSION_DEPTH,
        ) {
            Ok(whole) => whole,
            Err(e) => return Err(e),
        };
        let (left, right) = match split_once(whole.as_str(), ':') {
            Some(pair) => pair,
            None => return Err(line_message("missing ':'", n)),
        };
        let targets = split_whitespace(left.as_str());
        if targets.len() == 0 {
            assert(word_list(left@).len() == 0);
            return Err(line_message("empty target", n));
        }
        assert(word_list(left@).len() > 0);
        let prerequisites = split_whitespace(right.as_str());
        let ghost all = word_list(right@);
        let mut i: usize = 0;
        assert(all.subrange(0, all.len() as int) =~= all);
        while i < prerequisites.len()
            invariant
                i <= prerequisites.len(),
                all == texts(prerequisites@),
                all == word_list(right@),
                bad_prerequisite(all, n as int) == bad_prerequisite(
                    all.subrange(i as int, all.len() as int),
                    n as int,
                ),
                after_rule(old(self)@, n as int, line@) == (match bad_prerequisite(all, n as int) {
                    Some(e) => Err(e),
                    None => with_targets(
                        loose(old(self)@, old(self)@.sheet),
                        word_list(left@),
                        all,
                        n as int,
                    ),
                }),
                self@ == old(self)@,
            decreases prerequisites.len() - i,
        {
            let ghost rest = all.subrange(i as int, all.len() as int);
            assert(rest[0] == prerequisites@[i as int]@);
            assert(rest.subrange(1, rest.len() as int) =~= all.subrange(i + 1, all.len() as int));
            let name = prerequisites[i].as_str();
            if same(name, "|") {
                return Err(line_message("order-only prerequisites are unsupported", n));
            }
            if !(starts_with(name, "$(") && ends_with(name, ")")) {
                match validate_name(name, n) {
                    Ok(()) => {},
                    Err(e) => return Err(e),
                }
            }
            i += 1;
        }
        self.let_go();
        self.add_targets(targets.as_slice(), prerequisites.as_slice(), n)
    }

    fn add_line(&mut self, n: usize, raw: &str) -> (r: Result<(), String>)
        ensures
            step_done(r, final(self)@, after_line(old(self)@, n as int, raw@)),
    {
        if let Some(recipe) = strip_prefix(raw, "\t") {
            return self.add_recipe(n, recipe.as_str());
        }
        let line = trim(comment_cut(raw).as_str());
        if line.as_str().is_empty() {
            return Ok(());
        }
        if starts_with(line.as_str(), ".") {
            let rest = match strip_prefix(line.as_str(), ".PHONY:") {
                Some(rest) => rest,
                None => return Err(line_message("unsupported directive", n)),
            };
            let words = split_whitespace(rest.as_str());
            match self.add_phony(words.as_slice(), n) {
                Ok(()) => {},
                Err(e) => return Err(e),
            }
            self.let_go();
            return Ok(());
        }
        if let Some(rest) = directive_rest(line.as_str(), "export") {
            return self.add_export_line(rest.as_str(), n);
        }
        if let Some(rest) = directive_rest(line.as_str(), "unexport") {
            return self.add_unexport_line(rest.as_str(), n);
        }
        if let Some((name, value)) = parse_assignment(line.as_str()) {
            self.sheet.vars.insert(name, value);
            self.let_go();
            return Ok(());
        }
        self.add_rule(line.as_str(), n)
    }
}

fn directive_rest(line: &str, word: &str) -> (r: Option<String>)
    ensures
        opt_text(r) == directive(line@, word@),
{
    match strip_prefix(line, word) {
        Some(rest) => {
            let cs = chars_of(rest.as_str());
            if cs.len() == 0 || is_whitespace(cs[0]) {
                Some(trim_start(rest.as_str()))
            } else {
                None
            }
        },
        None => None,
    }
}

/// Reads a makefile, paying for it from the machine's budgets.
pub fn parse_makefile(system: &mut System, source: &str) -> (r: Result<Makefile, String>)
    ensures
        ({
            let (after, result) = metered_sheet(old(system)@, source@);
            &&& final(system)@ == after
            &&& match r {
                Ok(m) => result == Ok::<Sheet, Message>(m@) && targets_listed(m@),
                Err(e) => result == Err::<Sheet, Message>(e@),
            }
        }),
{
    proof {
        lemma_targets_listed(source@);
    }
    let bytes: usize = source.as_bytes().len();
    let double: u128 = 2 * (bytes as u128);
    let doubled: u64 = if double <= u64::MAX as u128 {
        double as u64
    } else {
        u64::MAX
    };
    if !system.charge_cpu(bytes as u64) || !system.reserve_memory(doubled) {
        return Err(copy_text("resource limit exceeded while reading makefile"));
    }
    let all = match logical_make_lines(source) {
        Ok(all) => all,
        Err(e) => return Err(e),
    };
    let ghost list = recipe_list(all@);
    let mut reader = Reader {
        sheet: Makefile {
            vars: OrdMap::new(),
            rules: OrdMap::new(),
            order: Vec::new(),
            phony: OrdMap::new(),
            export_state: OrdMap::new(),
        },
        targets: Vec::new(),
        prior: false,
        recipes: 0,
    };
    let ghost start = Reading { sheet: empty_sheet(), targets: seq![], prior: false, recipes: 0 };
    assert(reader@.sheet =~= empty_sheet());
    assert(reader@.targets =~= seq![]);
    let mut i: usize = 0;
    while i < all.len()
        invariant
            i <= all.len(),
            list == recipe_list(all@),
            joined_lines(line_list(source@), 0, seq![], None) == Ok::<
                Seq<(int, Seq<char>)>,
                Message,
            >(list),
            start == (Reading {
                sheet: empty_sheet(),
                targets: seq![],
                prior: false,
                recipes: 0,
            }),
            metered_sheet(old(system)@, source@) == (system@, sheet_of(source@)),
            after_lines(start, list, 0) == after_lines(reader@, list, i as int),
        decreases all.len() - i,
    {
        assert(list[i as int] == all@[i as int]@);
        match reader.add_line(all[i].line, all[i].text.as_str()) {
            Ok(()) => {},
            Err(e) => return Err(e),
        }
        i += 1;
    }
    Ok(reader.sheet)
}

// ---------------------------------------------------------------------------
// What expansion leaves alone
// ---------------------------------------------------------------------------

proof fn lemma_prefix_is_shorter(s: Seq<char>, k: int)
    requires
        0 <= k <= s.len(),
    ensures
        encode_utf8(s.take(k)).len() <= encode_utf8(s).len(),
    decreases s.len(),
{
    if k > 0 {
        let rest = s.drop_first();
        lemma_prefix_is_shorter(rest, k - 1);
        assert(s.take(k).drop_first() =~= rest.take(k - 1));
        assert(s.take(k)[0] == s[0]);
    }
}

proof fn lemma_plain_from(s: Seq<char>, i: int, scope: Scope, depth: nat)
    requires
        0 <= i <= s.len(),
        !s.contains('$'),
        !too_large(s),
        depth > 0,
    ensures
        expansion_from(s, i, s.take(i), scope, depth) == Ok::<Seq<char>, Message>(s),
    decreases s.len() - i,
{
    if i < s.len() {
        assert(s.contains(s[i]));
        lemma_prefix_is_shorter(s, i + 1);
        assert(s.take(i).push(s[i]) =~= s.take(i + 1));
        lemma_plain_from(s, i + 1, scope, depth);
    } else {
        assert(s.take(i) =~= s);
    }
}

/// A text without a dollar sign stands for itself, if it is not too large.
pub proof fn lemma_plain_text_stays(s: Seq<char>, scope: Scope, depth: nat)
    requires
        !s.contains('$'),
        !too_large(s),
        depth > 0,
    ensures
        expansion(s, scope, depth) == Ok::<Seq<char>, Message>(s),
{
    assert(s.take(0) =~= seq![]);
    lemma_plain_from(s, 0, scope, depth);
}

// ---------------------------------------------------------------------------
// The targets of a makefile
// ---------------------------------------------------------------------------

/// Whether the targets of a makefile are in order: the list of them names every rule once and nothing
/// else, each name is a proper one, and there are not too many.
pub open spec fn targets_listed(s: Sheet) -> bool {
    &&& ascending(s.rules)
    &&& s.order.no_duplicates()
    &&& forall|name: Seq<char>| #[trigger] s.order.contains(name) <==> lookup(s.rules, name) is Some
    &&& forall|i: int| 0 <= i < s.order.len() ==> !bad_name(#[trigger] s.order[i])
    &&& s.rules.len() <= MAX_TARGETS
}

/// Whether a reading has its targets in order, those that a recipe now belongs to among them.
spec fn in_order(r: Reading) -> bool {
    targets_listed(r.sheet) && forall|i: int|
        0 <= i < r.targets.len() ==> r.sheet.order.contains(#[trigger] r.targets[i])
}

proof fn lemma_one_target(s: Sheet, name: Seq<char>, rule: Making)
    requires
        targets_listed(s),
        !bad_name(name),
        lookup(s.rules, name) is Some || s.rules.len() < MAX_TARGETS,
    ensures
        targets_listed(
            Sheet {
                rules: bind(s.rules, name, rule),
                order: if lookup(s.rules, name) is None {
                    s.order.push(name)
                } else {
                    s.order
                },
                ..s
            },
        ),
{
    let rules = bind(s.rules, name, rule);
    let order = if lookup(s.rules, name) is None {
        s.order.push(name)
    } else {
        s.order
    };
    lemma_bind_ascending(s.rules, name, rule);
    lemma_bind_length(s.rules, name, rule);
    if lookup(s.rules, name) is Some {
        lemma_bind_again(s.rules, name, rule);
    }
    assert(!s.order.contains(name) <==> lookup(s.rules, name) is None);
    assert forall|x: Seq<char>| #[trigger] order.contains(x) <==> lookup(rules, x) is Some by {
        lemma_lookup_bind(s.rules, name, rule, x);
        assert(s.order.contains(x) <==> lookup(s.rules, x) is Some);
        if order != s.order {
            if s.order.contains(x) {
                let i = choose|i: int| 0 <= i < s.order.len() && s.order[i] == x;
                assert(order[i] == x);
            }
            if x == name {
                assert(order[s.order.len() as int] == x);
            }
        }
    }
    assert forall|i: int| 0 <= i < order.len() implies !bad_name(#[trigger] order[i]) by {
        if i < s.order.len() {
            assert(order[i] == s.order[i]);
        }
    }
}

proof fn lemma_targets(r: Reading, names: Seq<Seq<char>>, prerequisites: Seq<Seq<char>>, n: int)
    requires
        in_order(r),
    ensures
        with_targets(r, names, prerequisites, n) matches Ok(e) ==> in_order(e) && e.sheet.order == with_new(
            r.sheet.order,
            names,
        ) && e.targets == r.targets + names,
    decreases names.len(),
{
    if names.len() == 0 {
        assert(r.targets + names =~= r.targets);
    } else {
        let name = names[0];
        let rest = names.subrange(1, names.len() as int);
        let known = lookup(r.sheet.rules, name);
        if !bad_name(name) && !(r.sheet.rules.len() >= MAX_TARGETS && known is None) {
            let old_rule = match known {
                Some(m) => m,
                None => Making { prerequisites: seq![], recipes: seq![] },
            };
            let rule = Making {
                prerequisites: old_rule.prerequisites + prerequisites,
                recipes: old_rule.recipes,
            };
            lemma_one_target(r.sheet, name, rule);
            let order = if known is None {
                r.sheet.order.push(name)
            } else {
                r.sheet.order
            };
            let next = Reading {
                sheet: Sheet { rules: bind(r.sheet.rules, name, rule), order, ..r.sheet },
                targets: r.targets.push(name),
                prior: r.prior || old_rule.recipes.len() > 0,
                recipes: r.recipes,
            };
            assert(r.sheet.order.contains(name) <==> known is Some);
            assert(in_order(next)) by {
                assert forall|i: int| 0 <= i < next.targets.len() implies order.contains(
                    #[trigger] next.targets[i],
                ) by {
                    if i < r.targets.len() {
                        assert(next.targets[i] == r.targets[i]);
                        let k = choose|k: int|
                            0 <= k < r.sheet.order.len() && r.sheet.order[k] == r.targets[i];
                        assert(order[k] == r.targets[i]);
                    } else if known is None {
                        assert(order[r.sheet.order.len() as int] == name);
                    }
                }
            }
            lemma_targets(next, rest, prerequisites, n);
            let one = seq![name];
            assert(one + rest =~= names);
            assert(one.drop_last() =~= seq![]);
            assert(with_new(r.sheet.order, one.drop_last()) == r.sheet.order);
            assert(with_new(r.sheet.order, one) == order);
            lemma_with_new_twice(r.sheet.order, one, rest);
            assert(r.targets.push(name) + rest =~= r.targets + names);
        }
    }
}

proof fn lemma_recipe(s: Sheet, targets: Seq<Seq<char>>, line: (int, Seq<char>))
    requires
        targets_listed(s),
    ensures
        with_recipe(s.rules, targets, line) matches Ok(rules) ==> targets_listed(Sheet { rules, ..s }),
    decreases targets.len(),
{
    if targets.len() > 0 {
        if let Some(m) = lookup(s.rules, targets[0]) {
            let rule = Making { prerequisites: m.prerequisites, recipes: m.recipes.push(line) };
            assert(s.order.contains(targets[0]));
            let i = choose|i: int| 0 <= i < s.order.len() && s.order[i] == targets[0];
            assert(!bad_name(s.order[i]));
            lemma_one_target(s, targets[0], rule);
            let next = Sheet { rules: bind(s.rules, targets[0], rule), order: s.order, ..s };
            lemma_recipe(next, targets.subrange(1, targets.len() as int), line);
        }
    }
}

proof fn lemma_line(r: Reading, n: int, raw: Seq<char>)
    requires
        in_order(r),
    ensures
        after_line(r, n, raw) matches Ok(e) ==> in_order(e) && e.sheet.order == with_new(
            r.sheet.order,
            e.targets,
        ),
{
    if let Ok(e) = after_line(r, n, raw) {
        let line = trimmed(before_comment(raw));
        if starts(raw, "\t"@) {
            lemma_recipe(r.sheet, r.targets, (n, after_prefix(raw, "\t"@)->0));
            lemma_nothing_new(r.sheet.order, r.targets);
        } else if line.len() == 0 {
            lemma_nothing_new(r.sheet.order, r.targets);
        } else if e.sheet.order == r.sheet.order && e.sheet.rules == r.sheet.rules && e.targets.len() == 0 {
            lemma_nothing_new(r.sheet.order, e.targets);
        } else {
            let scope = Scope { vars: r.sheet.vars, target: ""@, prerequisites: seq![] };
            let whole = expansion(line, scope, MAX_EXPANSION_DEPTH as nat)->Ok_0;
            let (left, right) = cut_once(whole, ':')->0;
            let start = loose(r, r.sheet);
            lemma_targets(start, word_list(left), word_list(right), n);
            assert(start.targets + word_list(left) =~= word_list(left));
        }
    }
}

/// The targets that lines from `i` on name, in their order, each as often as it is named; those of a
/// rule once more for each of its recipe lines.
pub open spec fn targets_named(r: Reading, lines: Seq<(int, Seq<char>)>, i: int) -> Seq<Seq<char>>
    decreases lines.len() - i,
{
    if i < 0 || i >= lines.len() {
        seq![]
    } else {
        match after_line(r, lines[i].0, lines[i].1) {
            Ok(s) => s.targets + targets_named(s, lines, i + 1),
            Err(_) => seq![],
        }
    }
}

proof fn lemma_lines(r: Reading, lines: Seq<(int, Seq<char>)>, i: int)
    requires
        in_order(r),
    ensures
        after_lines(r, lines, i) matches Ok(e) ==> in_order(e) && e.sheet.order == with_new(
            r.sheet.order,
            targets_named(r, lines, i),
        ),
    decreases lines.len() - i,
{
    if 0 <= i < lines.len() {
        lemma_line(r, lines[i].0, lines[i].1);
        if let Ok(s) = after_line(r, lines[i].0, lines[i].1) {
            lemma_lines(s, lines, i + 1);
            lemma_with_new_twice(r.sheet.order, s.targets, targets_named(s, lines, i + 1));
        }
    }
}

/// A makefile that was read lists exactly its rules, each once, in the order in which their targets
/// are first named. There are at most 4096 of them, and none has an empty name or one with `%` or `$`.
pub proof fn lemma_targets_listed(source: Seq<char>)
    ensures
        sheet_of(source) matches Ok(sheet) ==> targets_listed(sheet) && sheet.order == with_new(
            seq![],
            targets_named(
                (Reading { sheet: empty_sheet(), targets: seq![], prior: false, recipes: 0 }),
                joined_lines(line_list(source), 0, seq![], None)->Ok_0,
                0,
            ),
        ),
{
    let start = Reading { sheet: empty_sheet(), targets: seq![], prior: false, recipes: 0 };
    assert(in_order(start)) by {
        assert forall|name: Seq<char>| #[trigger] start.sheet.order.contains(name) <==> lookup(
            start.sheet.rules,
            name,
        ) is Some by {}
    }
    if let Ok(lines) = joined_lines(line_list(source), 0, seq![], None) {
        lemma_lines(start, lines, 0);
    }
}

} // verus!
