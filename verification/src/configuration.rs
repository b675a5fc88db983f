//! Settings as commands see them, and the commands that change them.

use vstd::prelude::*;
use vstd::utf8::encode_utf8;

use crate::bytes::{decode_lossy, loose_text};
use crate::common::done;
use crate::console::{
    complained, failed, fatal, misused, no_repo, printed, repo_error, usage, Done, Io, Screen,
};
use crate::order::{bind, lookup, unbind, Duplicate, OrdMap};
use crate::patterns::{found_in, is_found, pattern_error, regex_refusal};
use crate::repo::{
    find_repo_root, git_file, git_path, read_all, readable, repo_root, write_vfs, written,
};
use crate::settings::{
    add_value, config_value, parse_config, proper_key, serialize_config, settings_bytes, settings_of,
    valid_config_key, value_in, with_value, Config, Keys, Values,
};
use crate::system::{below, path_join, Machine, System};
use crate::text::{
    after_prefix, before_suffix, chars_of, copy_text, join2, join3, join5, lemma_texts_push, lowered, opt_text,
    same, split_whitespace, starts, starts_with, strip_prefix, strip_suffix, texts, to_ascii_lowercase, word_list,
};

verus! {

/// The largest file that settings are read from.
pub const MAX_CONFIG_BYTES: usize = 262_144;

/// The longest value that is recorded.
pub const MAX_VALUE_BYTES: usize = 4_096;

/// The most keys that one file records.
pub const MAX_CONFIG_KEYS: usize = 256;

/// What holds for every command of one invocation.
pub struct Globals {
    /// Settings that are given on the command line.
    pub overrides: OrdMap<String>,
}

/// What holds for every command of one invocation.
pub type Overrides = Seq<(Seq<char>, Seq<char>)>;

impl View for Globals {
    type V = Overrides;

    open spec fn view(&self) -> Overrides {
        self.overrides@
    }
}

impl Globals {
    /// Nothing given on the command line.
    pub fn new() -> (r: Self)
        ensures
            r@ == Seq::<(Seq<char>, Seq<char>)>::empty(),
    {
        Globals { overrides: OrdMap::new() }
    }
}

// ---------------------------------------------------------------------------
// Reading settings
// ---------------------------------------------------------------------------

/// The settings that a file holds; none where it cannot be read.
pub open spec fn settings_at(m: Machine, path: Seq<char>) -> Keys {
    match readable(m, path) {
        Some(bytes) => if bytes.len() <= MAX_CONFIG_BYTES {
            settings_of(loose_text(bytes))
        } else {
            seq![]
        },
        None => seq![],
    }
}

/// The settings that a file holds.
pub fn read_config_file(system: &System, path: &str) -> (r: Config)
    ensures
        r@ == settings_at(system@, path@),
{
    let none: Config = OrdMap::new();
    assert(none@ =~= seq![]);
    match read_all(system, path) {
        Some(bytes) => if bytes.len() <= MAX_CONFIG_BYTES {
            parse_config(decode_lossy(bytes.as_slice()).as_str())
        } else {
            none
        },
        None => none,
    }
}

/// Where the settings of a repository stand.
pub open spec fn local_file(root: Seq<char>) -> Seq<char> {
    git_file(root, "config"@)
}

/// Where the settings of the user stand.
pub open spec fn global_file(m: Machine) -> Seq<char> {
    below(
        match lookup(m.environment, "HOME"@) {
            Some(home) => home,
            None => "/root"@,
        },
        ".gitconfig"@,
    )
}

/// Where the settings of the user stand.
pub fn global_config_path(system: &System) -> (r: String)
    ensures
        r@ == global_file(system@),
{
    let home = match system.variable("HOME") {
        Some(h) => h,
        None => copy_text("/root"),
    };
    path_join(home.as_str(), ".gitconfig")
}

/// Settings with others put over them, key by key.
pub open spec fn settings_over(c: Keys, over: Keys) -> Keys
    decreases over.len(),
{
    if over.len() == 0 {
        c
    } else {
        bind(settings_over(c, over.drop_last()), over.last().0, over.last().1)
    }
}

/// Settings with what is given on the command line put over them.
pub open spec fn settings_overridden(c: Keys, over: Overrides) -> Keys
    decreases over.len(),
{
    if over.len() == 0 {
        c
    } else {
        bind(settings_overridden(c, over.drop_last()), over.last().0, seq![over.last().1])
    }
}

/// Settings as a command sees them: those of the user, of the repository, and of the command line,
/// each over the one before.
pub open spec fn effective(m: Machine, root: Seq<char>, g: Overrides) -> Keys {
    settings_overridden(
        settings_over(settings_at(m, global_file(m)), settings_at(m, local_file(root))),
        g,
    )
}

/// Settings as a command sees them.
pub fn effective_config(system: &System, root: &str, globals: &Globals) -> (r: Config)
    ensures
        r@ == effective(system@, root@, globals@),
{
    let mut c = read_config_file(system, global_config_path(system).as_str());
    let local = read_config_file(system, git_path(root, "config").as_str());
    let ghost base = c@;
    let ghost all = local@;
    let mut i: usize = 0;
    while i < local.len()
        invariant
            i <= all.len(),
            all == local@,
            c@ == settings_over(base, all.take(i as int)),
        decreases all.len() - i,
    {
        assert(all.take(i + 1).drop_last() =~= all.take(i as int));
        c.insert(copy_text(local.key_at(i)), local.value_at(i).duplicate());
        i += 1;
    }
    assert(all.take(i as int) =~= all);
    let ghost both = c@;
    let ghost g = globals@;
    let mut k: usize = 0;
    while k < globals.overrides.len()
        invariant
            k <= g.len(),
            g == globals.overrides@,
            c@ == settings_overridden(both, g.take(k as int)),
        decreases g.len() - k,
    {
        assert(g.take(k + 1).drop_last() =~= g.take(k as int));
        let mut list: Vec<String> = Vec::new();
        list.push(copy_text(globals.overrides.value_at(k).as_str()));
        assert(texts(list@) =~= seq![g[k as int].1]);
        c.insert(copy_text(globals.overrides.key_at(k)), Values { list });
        k += 1;
    }
    assert(g.take(k as int) =~= g);
    c
}

// ---------------------------------------------------------------------------
// Who commits
// ---------------------------------------------------------------------------

/// A variable of the environment that holds something, or else a setting, or else a fallback.
pub open spec fn picked(
    m: Machine,
    c: Keys,
    variable: Seq<char>,
    key: Seq<char>,
    fallback: Seq<char>,
) -> Seq<char> {
    let set = match value_in(c, key) {
        Some(v) => v,
        None => fallback,
    };
    match lookup(m.environment, variable) {
        Some(v) => if v.len() > 0 {
            v
        } else {
            set
        },
        None => set,
    }
}

fn pick(system: &System, c: &Config, variable: &str, key: &str, fallback: &str) -> (r: String)
    ensures
        r@ == picked(system@, c@, variable@, key@, fallback@),
{
    if let Some(v) = system.variable(variable) {
        if !v.as_str().is_empty() {
            return v;
        }
    }
    match config_value(c, key) {
        Some(v) => copy_text(v),
        None => copy_text(fallback),
    }
}

/// The name and the address that new commits carry.
pub open spec fn identity_of(m: Machine, root: Seq<char>, g: Overrides) -> (Seq<char>, Seq<char>) {
    let c = effective(m, root, g);
    (
        picked(m, c, "GIT_AUTHOR_NAME"@, "user.name"@, "shellsim"@),
        picked(m, c, "GIT_AUTHOR_EMAIL"@, "user.email"@, "shellsim@localhost"@),
    )
}

/// The name and the address that new commits carry. The environment is preferred.
pub fn identity(system: &System, root: &str, globals: &Globals) -> (r: (String, String))
    ensures
        (r.0@, r.1@) == identity_of(system@, root@, globals@),
{
    let c = effective_config(system, root, globals);
    (
        pick(system, &c, "GIT_AUTHOR_NAME", "user.name", "shellsim"),
        pick(system, &c, "GIT_AUTHOR_EMAIL", "user.email", "shellsim@localhost"),
    )
}

/// The environment comes before the settings.
pub proof fn lemma_environment_first(m: Machine, root: Seq<char>, g: Overrides, name: Seq<char>)
    requires
        lookup(m.environment, "GIT_AUTHOR_NAME"@) == Some(name),
        name.len() > 0,
    ensures
        identity_of(m, root, g).0 == name,
{
}

// ---------------------------------------------------------------------------
// git config
// ---------------------------------------------------------------------------

/// What the options of `git config` ask for.
pub struct ConfigAsk {
    pub global: bool,
    pub explicit: bool,
    pub show_origin: bool,
    pub as_boolean: bool,
    pub operands: Vec<String>,
}

/// What is asked of `git config`.
#[verifier::ext_equal]
pub struct ConfigWish {
    pub global: bool,
    pub explicit: bool,
    pub show_origin: bool,
    pub as_boolean: bool,
    pub operands: Seq<Seq<char>>,
}

impl View for ConfigAsk {
    type V = ConfigWish;

    open spec fn view(&self) -> ConfigWish {
        ConfigWish {
            global: self.global,
            explicit: self.explicit,
            show_origin: self.show_origin,
            as_boolean: self.as_boolean,
            operands: texts(self.operands@),
        }
    }
}

/// Whether an argument is a verb, though it is written as an option.
pub open spec fn config_verb(s: Seq<char>) -> bool {
    s == "--list"@ || s == "-l"@ || s == "--get"@ || s == "--get-all"@ || s == "--get-regexp"@ || s
        == "--unset"@ || s == "--unset-all"@ || s == "--add"@
}

fn is_config_verb(s: &str) -> (r: bool)
    ensures
        r == config_verb(s@),
{
    same(s, "--list") || same(s, "-l") || same(s, "--get") || same(s, "--get-all") || same(
        s,
        "--get-regexp",
    ) || same(s, "--unset") || same(s, "--unset-all") || same(s, "--add")
}

/// What is asked for once an argument is read.
pub open spec fn config_argument(x: ConfigWish, s: Seq<char>) -> Result<ConfigWish, Seq<char>> {
    if s == "--local"@ {
        Ok(ConfigWish { explicit: true, ..x })
    } else if s == "--global"@ {
        Ok(ConfigWish { global: true, explicit: true, ..x })
    } else if s == "--system"@ {
        Err("the system configuration scope is not available"@)
    } else if s == "--show-origin"@ {
        Ok(ConfigWish { show_origin: true, ..x })
    } else if s == "--bool"@ || s == "--type=bool"@ {
        Ok(ConfigWish { as_boolean: true, ..x })
    } else if s == "--type=string"@ {
        Ok(x)
    } else if starts(s, "-"@) && !config_verb(s) {
        Err("unsupported config option: "@ + s)
    } else {
        Ok(ConfigWish { operands: x.operands.push(s), ..x })
    }
}

/// What the arguments ask for from `i` on.
pub open spec fn config_words(x: ConfigWish, args: Seq<Seq<char>>, i: int) -> Result<
    ConfigWish,
    Seq<char>,
>
    decreases args.len() - i,
{
    if i < 0 || i >= args.len() {
        Ok(x)
    } else {
        match config_argument(x, args[i]) {
            Ok(y) => config_words(y, args, i + 1),
            Err(e) => Err(e),
        }
    }
}

/// What `git config` is asked for without any argument.
pub open spec fn no_config() -> ConfigWish {
    ConfigWish {
        global: false,
        explicit: false,
        show_origin: false,
        as_boolean: false,
        operands: seq![],
    }
}

/// What the words that were read say.
pub open spec fn config_result(r: Result<ConfigAsk, String>) -> Result<ConfigWish, Seq<char>> {
    match r {
        Ok(x) => Ok(x@),
        Err(e) => Err(e@),
    }
}

fn read_config_argument(x: ConfigAsk, s: &str) -> (r: Result<ConfigAsk, String>)
    ensures
        config_result(r) == config_argument(x@, s@),
{
    broadcast use lemma_texts_push;

    let mut x = x;
    if same(s, "--local") {
        x.explicit = true;
    } else if same(s, "--global") {
        x.global = true;
        x.explicit = true;
    } else if same(s, "--system") {
        return Err(copy_text("the system configuration scope is not available"));
    } else if same(s, "--show-origin") {
        x.show_origin = true;
    } else if same(s, "--bool") || same(s, "--type=bool") {
        x.as_boolean = true;
    } else if same(s, "--type=string") {
    } else if starts_with(s, "-") && !is_config_verb(s) {
        return Err(join2("unsupported config option: ", s));
    } else {
        x.operands.push(copy_text(s));
    }
    Ok(x)
}

fn read_config_words(args: &[String]) -> (r: Result<ConfigAsk, String>)
    ensures
        config_result(r) == config_words(no_config(), texts(args@), 0),
{
    let ghost all = texts(args@);
    let mut x = ConfigAsk {
        global: false,
        explicit: false,
        show_origin: false,
        as_boolean: false,
        operands: Vec::new(),
    };
    assert(texts(x.operands@) =~= seq![]);
    let ghost goal = config_words(no_config(), all, 0);
    let mut i: usize = 0;
    while i < args.len()
        invariant
            i <= args.len(),
            all == texts(args@),
            goal == config_words(no_config(), all, 0),
            goal == config_words(x@, all, i as int),
        decreases args.len() - i,
    {
        assert(all[i as int] == args@[i as int]@);
        x = match read_config_argument(x, args[i].as_str()) {
            Ok(y) => y,
            Err(e) => return Err(e),
        };
        i += 1;
    }
    Ok(x)
}

/// The lines of the values of one key.
pub open spec fn entry_lines(front: Seq<char>, values: Seq<Seq<char>>) -> Seq<char>
    decreases values.len(),
{
    if values.len() == 0 {
        ""@
    } else {
        entry_lines(front, values.drop_last()) + (front + values.last() + "\n"@)
    }
}

/// The lines of all settings.
pub open spec fn all_lines(origin: Seq<char>, c: Keys) -> Seq<char>
    decreases c.len(),
{
    if c.len() == 0 {
        ""@
    } else {
        all_lines(origin, c.drop_last()) + entry_lines(origin + c.last().0 + "="@, c.last().1)
    }
}

/// The lines of the settings that are marked.
pub open spec fn marked_lines(origin: Seq<char>, c: Keys, marks: Seq<bool>) -> Seq<char>
    decreases c.len(),
{
    if c.len() == 0 {
        ""@
    } else {
        let n = c.len() - 1;
        marked_lines(origin, c.drop_last(), marks) + (if marks[n] {
            entry_lines(origin + c.last().0 + " "@, c.last().1)
        } else {
            ""@
        })
    }
}

/// Which keys a pattern is found in.
pub open spec fn key_marks(c: Keys, pattern: Seq<char>) -> Seq<bool> {
    c.map_values(|e: (Seq<char>, Seq<Seq<char>>)| found_in(pattern, false, e.0))
}

/// How a value reads as a truth value: these spellings are true, everything else is false.
pub open spec fn truthy(value: Seq<char>) -> bool {
    let v = lowered(value);
    v == "true"@ || v == "yes"@ || v == "on"@ || v == "1"@ || value.len() == 0
}

/// The line of one value.
pub open spec fn value_line(origin: Seq<char>, value: Seq<char>, as_boolean: bool) -> Seq<char> {
    origin + (if as_boolean {
        if truthy(value) {
            "true"@
        } else {
            "false"@
        }
    } else {
        value
    }) + "\n"@
}

/// The lines of values.
pub open spec fn value_list(origin: Seq<char>, values: Seq<Seq<char>>, as_boolean: bool) -> Seq<char>
    decreases values.len(),
{
    if values.len() == 0 {
        ""@
    } else {
        value_list(origin, values.drop_last(), as_boolean) + value_line(
            origin,
            values.last(),
            as_boolean,
        )
    }
}

fn lines_of_entry(front: &str, values: &Values) -> (r: String)
    ensures
        r@ == entry_lines(front@, values@),
{
    let ghost all = values@;
    let mut out = copy_text("");
    let mut i: usize = 0;
    while i < values.list.len()
        invariant
            i <= values.list.len(),
            all == texts(values.list@),
            out@ == entry_lines(front@, all.take(i as int)),
        decreases values.list.len() - i,
    {
        assert(all.take(i + 1).drop_last() =~= all.take(i as int));
        assert(all.take(i + 1).last() == values.list@[i as int]@);
        out.append(join3(front, values.list[i].as_str(), "\n").as_str());
        i += 1;
    }
    assert(all.take(i as int) =~= all);
    out
}

fn list_settings(origin: &str, c: &Config) -> (r: String)
    ensures
        r@ == all_lines(origin@, c@),
{
    let ghost all = c@;
    let mut out = copy_text("");
    let mut i: usize = 0;
    while i < c.len()
        invariant
            i <= all.len(),
            all == c@,
            out@ == all_lines(origin@, all.take(i as int)),
        decreases all.len() - i,
    {
        assert(all.take(i + 1).drop_last() =~= all.take(i as int));
        let front = join3(origin, c.key_at(i), "=");
        out.append(lines_of_entry(front.as_str(), c.value_at(i)).as_str());
        i += 1;
    }
    assert(all.take(i as int) =~= all);
    out
}

/// The lines of the settings that are marked, and whether any is.
pub fn list_marked(origin: &str, c: &Config, marks: &[bool]) -> (r: (String, bool))
    requires
        marks@.len() == c@.len(),
    ensures
        r.0@ == marked_lines(origin@, c@, marks@),
        r.1 == marks@.contains(true),
{
    let ghost all = c@;
    let mut out = copy_text("");
    let mut any = false;
    let mut i: usize = 0;
    while i < c.len()
        invariant
            i <= all.len(),
            all == c@,
            marks@.len() == all.len(),
            out@ == marked_lines(origin@, all.take(i as int), marks@),
            any == exists|k: int| 0 <= k < i && #[trigger] marks@[k],
        decreases all.len() - i,
    {
        assert(all.take(i + 1).drop_last() =~= all.take(i as int));
        if marks[i] {
            assert(marks@[i as int]);
            any = true;
            let front = join3(origin, c.key_at(i), " ");
            out.append(lines_of_entry(front.as_str(), c.value_at(i)).as_str());
        } else {
            out.append("");
        }
        i += 1;
    }
    assert(all.take(i as int) =~= all);
    assert(any == marks@.contains(true)) by {
        if any {
            let k = choose|k: int| 0 <= k < i && #[trigger] marks@[k];
            assert(marks@[k] == true);
        }
        if marks@.contains(true) {
            let k = choose|k: int| 0 <= k < marks@.len() && marks@[k] == true;
            assert(marks@[k]);
        }
    }
    (out, any)
}

fn mark_keys(c: &Config, pattern: &str) -> (r: Vec<bool>)
    requires
        regex_refusal(pattern@, false) is None,
    ensures
        r@ == key_marks(c@, pattern@),
{
    let mut out: Vec<bool> = Vec::new();
    let mut i: usize = 0;
    while i < c.len()
        invariant
            i <= c@.len(),
            out@.len() == i,
            regex_refusal(pattern@, false) is None,
            forall|k: int|
                0 <= k < i ==> #[trigger] out@[k] == found_in(pattern@, false, c@[k].0),
        decreases c@.len() - i,
    {
        out.push(is_found(pattern, false, c.key_at(i)));
        i += 1;
    }
    assert(out@ =~= key_marks(c@, pattern@));
    out
}

fn is_truthy(value: &str) -> (r: bool)
    ensures
        r == truthy(value@),
{
    let v = to_ascii_lowercase(value);
    same(v.as_str(), "true") || same(v.as_str(), "yes") || same(v.as_str(), "on") || same(
        v.as_str(),
        "1",
    ) || value.is_empty()
}

fn show_value(origin: &str, value: &str, as_boolean: bool) -> (r: String)
    ensures
        r@ == value_line(origin@, value@, as_boolean),
{
    if as_boolean {
        join3(
            origin,
            if is_truthy(value) {
                "true"
            } else {
                "false"
            },
            "\n",
        )
    } else {
        join3(origin, value, "\n")
    }
}

fn show_values(origin: &str, values: &Values, as_boolean: bool) -> (r: String)
    ensures
        r@ == value_list(origin@, values@, as_boolean),
{
    let ghost all = values@;
    let mut out = copy_text("");
    let mut i: usize = 0;
    while i < values.list.len()
        invariant
            i <= values.list.len(),
            all == texts(values.list@),
            out@ == value_list(origin@, all.take(i as int), as_boolean),
        decreases values.list.len() - i,
    {
        assert(all.take(i + 1).drop_last() =~= all.take(i as int));
        assert(all.take(i + 1).last() == values.list@[i as int]@);
        out.append(show_value(origin, values.list[i].as_str(), as_boolean).as_str());
        i += 1;
    }
    assert(all.take(i as int) =~= all);
    out
}

/// Storing settings in a file; the status tells whether that was possible.
pub open spec fn settings_stored(m: Machine, s: Screen, file: Seq<char>, c: Keys) -> Done {
    let (n, r) = written(m, file, settings_bytes(c));
    Done {
        m: n,
        s,
        status: if r is Ok {
            0
        } else {
            1
        },
    }
}

fn store_settings(system: &mut System, file: &str, c: &Config) -> (r: i32)
    ensures
        forall|s: Screen|
            #![trigger settings_stored(old(system)@, s, file@, c@)]
            done(final(system)@, s, r) == settings_stored(old(system)@, s, file@, c@),
{
    let bytes = serialize_config(c);
    match write_vfs(system, file, bytes.as_slice()) {
        Ok(()) => 0,
        Err(_) => 1,
    }
}

/// Whether a character cannot stand in a value.
pub open spec fn unfit(c: char) -> bool {
    c == '\0' || c == '\n' || c == '\r'
}

/// Whether a value can be recorded.
pub open spec fn proper_value(value: Seq<char>) -> bool {
    encode_utf8(value).len() <= MAX_VALUE_BYTES && forall|i: int|
        0 <= i < value.len() ==> !unfit(#[trigger] value[i])
}

fn is_proper_value(value: &str) -> (r: bool)
    ensures
        r == proper_value(value@),
{
    if value.as_bytes().len() > MAX_VALUE_BYTES {
        return false;
    }
    let cs = chars_of(value);
    let mut i: usize = 0;
    while i < cs.len()
        invariant
            i <= cs.len(),
            cs@ == value@,
            forall|k: int| 0 <= k < i ==> !unfit(#[trigger] cs@[k]),
        decreases cs.len() - i,
    {
        if cs[i] == '\0' || cs[i] == '\n' || cs[i] == '\r' {
            assert(unfit(cs@[i as int]));
            return false;
        }
        i += 1;
    }
    true
}

/// Recording a value.
pub open spec fn value_set(
    m: Machine,
    s: Screen,
    file: Seq<char>,
    stored: Keys,
    name: Seq<char>,
    value: Seq<char>,
    adding: bool,
) -> Done {
    let key = lowered(name);
    if !proper_key(key) || !proper_value(value) {
        failed(m, s, "invalid config key or value"@)
    } else if stored.len() == MAX_CONFIG_KEYS && lookup(stored, key) is None {
        failed(m, s, "too many config entries"@)
    } else {
        settings_stored(
            m,
            s,
            file,
            if adding {
                with_value(stored, key, value)
            } else {
                bind(stored, key, seq![value])
            },
        )
    }
}

/// Removing a key.
pub open spec fn value_unset(m: Machine, s: Screen, file: Seq<char>, stored: Keys, name: Seq<char>) -> Done {
    if lookup(stored, lowered(name)) is None {
        Done { m, s, status: 5 }
    } else {
        settings_stored(m, s, file, unbind(stored, lowered(name)))
    }
}

fn set_value(
    system: &mut System,
    file: &str,
    stored: Config,
    name: &str,
    value: &str,
    adding: bool,
    io: &mut Io,
) -> (r: i32)
    ensures
        done(final(system)@, final(io)@, r) == value_set(
            old(system)@,
            old(io)@,
            file@,
            stored@,
            name@,
            value@,
            adding,
        ),
{
    let key = to_ascii_lowercase(name);
    if !valid_config_key(key.as_str()) || !is_proper_value(value) {
        return fatal(io, "invalid config key or value");
    }
    if stored.len() == MAX_CONFIG_KEYS && !stored.contains_key(key.as_str()) {
        return fatal(io, "too many config entries");
    }
    let mut c = stored;
    if adding {
        add_value(&mut c, key, copy_text(value));
    } else {
        let mut list: Vec<String> = Vec::new();
        list.push(copy_text(value));
        assert(texts(list@) =~= seq![value@]);
        c.insert(key, Values { list });
    }
    let status = store_settings(system, file, &c);
    assert(settings_stored(old(system)@, io@, file@, c@).s == io@);
    status
}

fn unset_value(system: &mut System, file: &str, stored: Config, name: &str, io: &Io) -> (r: i32)
    ensures
        done(final(system)@, io@, r) == value_unset(
            old(system)@,
            io@,
            file@,
            stored@,
            name@,
        ),
{
    let key = to_ascii_lowercase(name);
    if !stored.contains_key(key.as_str()) {
        return 5;
    }
    let mut c = stored;
    c.remove(key.as_str());
    let status = store_settings(system, file, &c);
    assert(settings_stored(old(system)@, io@, file@, c@).s == io@);
    status
}

/// Showing the settings whose key a pattern is found in.
pub open spec fn settings_searched(
    m: Machine,
    s: Screen,
    origin: Seq<char>,
    c: Keys,
    pattern: Seq<char>,
) -> Done {
    if regex_refusal(pattern, false) is Some {
        failed(m, s, "invalid --get-regexp pattern"@)
    } else {
        let marks = key_marks(c, pattern);
        Done {
            m,
            s: printed(s, marked_lines(origin, c, marks)),
            status: if marks.contains(true) {
                0
            } else {
                1
            },
        }
    }
}

fn search_settings(origin: &str, c: &Config, pattern: &str, io: &mut Io) -> (r: i32)
    ensures
        forall|m: Machine|
            #![trigger settings_searched(m, old(io)@, origin@, c@, pattern@)]
            done(m, final(io)@, r) == settings_searched(m, old(io)@, origin@, c@, pattern@),
{
    if pattern_error(pattern, false).is_some() {
        return fatal(io, "invalid --get-regexp pattern");
    }
    let marks = mark_keys(c, pattern);
    let (text, any) = list_marked(origin, c, marks.as_slice());
    io.print(text.as_str());
    if any {
        0
    } else {
        1
    }
}

/// What `git config` works on: the file, what it holds, what is read, and what is put before each
/// line.
pub struct Scope {
    pub file: String,
    pub stored: Config,
    pub readable: Config,
    pub origin: String,
}

/// What `git config` works on.
#[verifier::ext_equal]
pub struct Field {
    pub file: Seq<char>,
    pub stored: Keys,
    pub readable: Keys,
    pub origin: Seq<char>,
}

impl View for Scope {
    type V = Field;

    open spec fn view(&self) -> Field {
        Field {
            file: self.file@,
            stored: self.stored@,
            readable: self.readable@,
            origin: self.origin@,
        }
    }
}

/// What `git config` works on. An explicit scope reads only its file; otherwise every layer is seen.
pub open spec fn field_of(m: Machine, root: Seq<char>, g: Overrides, x: ConfigWish) -> Field {
    let file = if x.global {
        global_file(m)
    } else {
        local_file(root)
    };
    let stored = settings_at(m, file);
    Field {
        file,
        stored,
        readable: if x.explicit || root.len() == 0 {
            stored
        } else {
            effective(m, root, g)
        },
        origin: if x.show_origin {
            "file:"@ + file + "\t"@
        } else {
            ""@
        },
    }
}

/// Showing one value.
pub open spec fn value_shown(m: Machine, s: Screen, f: Field, key: Seq<char>, as_boolean: bool) -> Done {
    match value_in(f.readable, lowered(key)) {
        Some(v) => Done { m, s: printed(s, value_line(f.origin, v, as_boolean)), status: 0 },
        None => Done { m, s, status: 1 },
    }
}

/// Showing all values of a key.
pub open spec fn values_shown(m: Machine, s: Screen, f: Field, key: Seq<char>, as_boolean: bool) -> Done {
    match lookup(f.readable, lowered(key)) {
        Some(v) => Done { m, s: printed(s, value_list(f.origin, v, as_boolean)), status: 0 },
        None => Done { m, s, status: 1 },
    }
}

/// What `git config` does with its operands.
pub open spec fn config_acted(m: Machine, s: Screen, f: Field, x: ConfigWish) -> Done {
    let v = x.operands;
    let n = v.len();
    if n == 1 && (v[0] == "--list"@ || v[0] == "-l"@) {
        Done { m, s: printed(s, all_lines(f.origin, f.readable)), status: 0 }
    } else if n == 2 && v[0] == "--get-regexp"@ {
        settings_searched(m, s, f.origin, f.readable, v[1])
    } else if n == 2 && v[0] == "--get-all"@ {
        values_shown(m, s, f, v[1], x.as_boolean)
    } else if n == 2 && v[0] == "--get"@ && !starts(v[1], "-"@) {
        value_shown(m, s, f, v[1], x.as_boolean)
    } else if n == 1 && !starts(v[0], "-"@) {
        value_shown(m, s, f, v[0], x.as_boolean)
    } else if n == 2 && (v[0] == "--unset"@ || v[0] == "--unset-all"@) {
        value_unset(m, s, f.file, f.stored, v[1])
    } else if n == 3 && v[0] == "--add"@ && !starts(v[1], "-"@) {
        value_set(m, s, f.file, f.stored, v[1], v[2], true)
    } else if n == 2 && !starts(v[0], "-"@) {
        value_set(m, s, f.file, f.stored, v[0], v[1], false)
    } else {
        misused(
            m,
            s,
            "usage: git config [--local|--global] [--get|--unset|--list] NAME [VALUE]"@,
        )
    }
}

/// `git config`.
pub open spec fn config_done(m: Machine, s: Screen, g: Overrides, args: Seq<Seq<char>>) -> Done {
    match config_words(no_config(), args, 0) {
        Err(message) => misused(m, s, message),
        Ok(x) => match repo_root(m) {
            Some(root) => config_acted(m, s, field_of(m, root, g, x), x),
            None => if x.global {
                config_acted(m, s, field_of(m, ""@, g, x), x)
            } else {
                no_repo(m, s)
            },
        },
    }
}

fn make_scope(system: &System, root: &str, globals: &Globals, x: &ConfigAsk) -> (r: Scope)
    ensures
        r@ == field_of(system@, root@, globals@, x@),
{
    let file = if x.global {
        global_config_path(system)
    } else {
        git_path(root, "config")
    };
    let stored = read_config_file(system, file.as_str());
    let readable = if x.explicit || root.is_empty() {
        stored.duplicate()
    } else {
        effective_config(system, root, globals)
    };
    let origin = if x.show_origin {
        join3("file:", file.as_str(), "\t")
    } else {
        copy_text("")
    };
    Scope { file, stored, readable, origin }
}

fn show_one(f: &Scope, key: &str, as_boolean: bool, io: &mut Io) -> (r: i32)
    ensures
        forall|m: Machine|
            #![trigger value_shown(m, old(io)@, f@, key@, as_boolean)]
            done(m, final(io)@, r) == value_shown(m, old(io)@, f@, key@, as_boolean),
{
    match config_value(&f.readable, to_ascii_lowercase(key).as_str()) {
        Some(v) => {
            io.print(show_value(f.origin.as_str(), v, as_boolean).as_str());
            0
        },
        None => 1,
    }
}

fn show_all(f: &Scope, key: &str, as_boolean: bool, io: &mut Io) -> (r: i32)
    ensures
        forall|m: Machine|
            #![trigger values_shown(m, old(io)@, f@, key@, as_boolean)]
            done(m, final(io)@, r) == values_shown(m, old(io)@, f@, key@, as_boolean),
{
    match f.readable.get(to_ascii_lowercase(key).as_str()) {
        Some(v) => {
            io.print(show_values(f.origin.as_str(), v, as_boolean).as_str());
            0
        },
        None => 1,
    }
}

fn act_config(system: &mut System, f: Scope, x: &ConfigAsk, io: &mut Io) -> (r: i32)
    ensures
        done(final(system)@, final(io)@, r) == config_acted(old(system)@, old(io)@, f@, x@),
{
    let n: usize = x.operands.len();
    let ghost v = x@.operands;
    assert(v.len() == n);
    assert(forall|k: int| 0 <= k < n ==> v[k] == #[trigger] x.operands@[k]@);
    if n == 1 {
        let a = x.operands[0].as_str();
        if same(a, "--list") || same(a, "-l") {
            io.print(list_settings(f.origin.as_str(), &f.readable).as_str());
            return 0;
        }
        if !starts_with(a, "-") {
            return show_one(&f, a, x.as_boolean, io);
        }
    }
    if n == 2 {
        let a = x.operands[0].as_str();
        let b = x.operands[1].as_str();
        if same(a, "--get-regexp") {
            return search_settings(f.origin.as_str(), &f.readable, b, io);
        }
        if same(a, "--get-all") {
            return show_all(&f, b, x.as_boolean, io);
        }
        if same(a, "--get") && !starts_with(b, "-") {
            return show_one(&f, b, x.as_boolean, io);
        }
        if same(a, "--unset") || same(a, "--unset-all") {
            return unset_value(system, f.file.as_str(), f.stored, b, io);
        }
        if !starts_with(a, "-") {
            return set_value(system, f.file.as_str(), f.stored, a, b, false, io);
        }
    }
    if n == 3 {
        let a = x.operands[0].as_str();
        let b = x.operands[1].as_str();
        if same(a, "--add") && !starts_with(b, "-") {
            return set_value(
                system,
                f.file.as_str(),
                f.stored,
                b,
                x.operands[2].as_str(),
                true,
                io,
            );
        }
    }
    usage(io, "usage: git config [--local|--global] [--get|--unset|--list] NAME [VALUE]")
}

/// `git config`: reads and writes settings.
pub fn git_config(system: &mut System, globals: &Globals, args: &[String], io: &mut Io) -> (r: i32)
    ensures
        done(final(system)@, final(io)@, r) == config_done(
            old(system)@,
            old(io)@,
            globals@,
            texts(args@),
        ),
{
    let x = match read_config_words(args) {
        Ok(x) => x,
        Err(message) => return usage(io, message.as_str()),
    };
    let root = match find_repo_root(system) {
        Some(root) => root,
        None => {
            if !x.global {
                return repo_error(io);
            }
            copy_text("")
        },
    };
    let f = make_scope(system, root.as_str(), globals, &x);
    act_config(system, f, &x, io)
}

// ---------------------------------------------------------------------------
// Aliases
// ---------------------------------------------------------------------------

/// The settings that aliases are looked up in.
pub open spec fn alias_settings(m: Machine, g: Overrides) -> Keys {
    effective(
        m,
        match repo_root(m) {
            Some(r) => r,
            None => ""@,
        },
        g,
    )
}

/// How many settings there are that may be aliases.
pub fn count_settings(system: &System, globals: &Globals) -> (r: usize)
    ensures
        r == alias_settings(system@, globals@).len(),
{
    let root = match find_repo_root(system) {
        Some(r) => r,
        None => copy_text(""),
    };
    effective_config(system, root.as_str(), globals).len()
}

/// The words that an alias stands for.
pub open spec fn alias_of(m: Machine, g: Overrides, name: Seq<char>) -> Option<Seq<Seq<char>>> {
    match value_in(alias_settings(m, g), "alias."@ + lowered(name)) {
        None => None,
        Some(v) => if starts(v, "!"@) || word_list(v).len() == 0 {
            None
        } else {
            Some(word_list(v))
        },
    }
}

/// The words that an alias stands for. One that would run a shell is not followed.
pub fn alias(system: &System, globals: &Globals, name: &str) -> (r: Option<Vec<String>>)
    ensures
        match r {
            Some(v) => alias_of(system@, globals@, name@) == Some(texts(v@)) && v@.len() > 0,
            None => alias_of(system@, globals@, name@) is None,
        },
{
    let root = match find_repo_root(system) {
        Some(r) => r,
        None => copy_text(""),
    };
    let c = effective_config(system, root.as_str(), globals);
    let key = join2("alias.", to_ascii_lowercase(name).as_str());
    match config_value(&c, key.as_str()) {
        None => None,
        Some(v) => {
            if starts_with(v, "!") {
                return None;
            }
            let words = split_whitespace(v);
            assert(texts(words@).len() == words@.len());
            if words.len() == 0 {
                None
            } else {
                Some(words)
            }
        },
    }
}

// ---------------------------------------------------------------------------
// git remote
// ---------------------------------------------------------------------------

/// The name of the remote whose address a key records.
pub open spec fn remote_name(key: Seq<char>) -> Option<Seq<char>> {
    match after_prefix(key, "remote."@) {
        Some(rest) => before_suffix(rest, ".url"@),
        None => None,
    }
}

fn name_remote(key: &str) -> (r: Option<String>)
    ensures
        opt_text(r) == remote_name(key@),
{
    match strip_prefix(key, "remote.") {
        Some(rest) => strip_suffix(rest.as_str(), ".url"),
        None => None,
    }
}

/// The lines of one remote.
pub open spec fn remote_line(name: Seq<char>, url: Seq<char>, verbose: bool) -> Seq<char> {
    if verbose {
        name + "\t"@ + url + " (fetch)\n"@ + name + "\t"@ + url + " (push)\n"@
    } else {
        name + "\n"@
    }
}

/// The lines of the remotes.
pub open spec fn remote_lines(c: Keys, verbose: bool) -> Seq<char>
    decreases c.len(),
{
    if c.len() == 0 {
        ""@
    } else {
        let head = remote_lines(c.drop_last(), verbose);
        match remote_name(c.last().0) {
            Some(name) => if c.last().1.len() > 0 {
                head + remote_line(name, c.last().1.last(), verbose)
            } else {
                head
            },
            None => head,
        }
    }
}

fn list_remotes(c: &Config, verbose: bool) -> (r: String)
    ensures
        r@ == remote_lines(c@, verbose),
{
    let ghost all = c@;
    let mut out = copy_text("");
    let mut i: usize = 0;
    while i < c.len()
        invariant
            i <= all.len(),
            all == c@,
            out@ == remote_lines(all.take(i as int), verbose),
        decreases all.len() - i,
    {
        assert(all.take(i + 1).drop_last() =~= all.take(i as int));
        let values = c.value_at(i);
        assert(values@ == all[i as int].1);
        assert(values@.len() == values.list@.len());
        if let Some(name) = name_remote(c.key_at(i)) {
            let n: usize = values.list.len();
            if n > 0 {
                assert(values@.last() == values.list@[n - 1]@);
                let url = values.list[n - 1].as_str();
                let line = if verbose {
                    let mut line = join5(name.as_str(), "\t", url, " (fetch)\n", name.as_str());
                    line.append("\t");
                    line.append(url);
                    line.append(" (push)\n");
                    line
                } else {
                    join2(name.as_str(), "\n")
                };
                out.append(line.as_str());
            }
        }
        i += 1;
    }
    assert(all.take(i as int) =~= all);
    out
}

/// The arguments that are no options.
pub open spec fn plain_arguments(args: Seq<Seq<char>>) -> Seq<Seq<char>>
    decreases args.len(),
{
    if args.len() == 0 {
        seq![]
    } else if starts(args.last(), "-"@) {
        plain_arguments(args.drop_last())
    } else {
        plain_arguments(args.drop_last()).push(args.last())
    }
}

fn read_plain(args: &[String]) -> (r: Vec<String>)
    ensures
        texts(r@) == plain_arguments(texts(args@)),
{
    let ghost all = texts(args@);
    let mut out: Vec<String> = Vec::new();
    let mut i: usize = 0;
    assert(texts(out@) =~= seq![]);
    while i < args.len()
        invariant
            i <= args.len(),
            all == texts(args@),
            texts(out@) == plain_arguments(all.take(i as int)),
        decreases args.len() - i,
    {
        broadcast use lemma_texts_push;

        assert(all.take(i + 1).drop_last() =~= all.take(i as int));
        assert(all.take(i + 1).last() == args@[i as int]@);
        if !starts_with(args[i].as_str(), "-") {
            out.push(copy_text(args[i].as_str()));
        }
        i += 1;
    }
    assert(all.take(i as int) =~= all);
    out
}

/// Whether an argument is given.
pub open spec fn given(args: Seq<Seq<char>>, value: Seq<char>) -> bool {
    exists|i: int| 0 <= i < args.len() && #[trigger] args[i] == value
}

/// Whether an argument is given.
pub fn is_given(args: &[String], value: &str) -> (r: bool)
    ensures
        r == given(texts(args@), value@),
{
    let ghost all = texts(args@);
    let mut i: usize = 0;
    while i < args.len()
        invariant
            i <= args.len(),
            all == texts(args@),
            forall|k: int| 0 <= k < i ==> #[trigger] all[k] != value@,
        decreases args.len() - i,
    {
        assert(all[i as int] == args@[i as int]@);
        if same(args[i].as_str(), value) {
            return true;
        }
        i += 1;
    }
    false
}

/// The key that records the address of a remote.
pub open spec fn remote_key(name: Seq<char>) -> Seq<char> {
    "remote."@ + lowered(name) + ".url"@
}

/// The complaint about a remote that is not known.
pub open spec fn no_remote(m: Machine, s: Screen, name: Seq<char>) -> Done {
    Done { m, s: complained(s, "error: No such remote '"@ + name + "'\n"@), status: 2 }
}

/// `git remote` in a repository.
pub open spec fn remote_acted(
    m: Machine,
    s: Screen,
    root: Seq<char>,
    g: Overrides,
    verbose: bool,
    v: Seq<Seq<char>>,
) -> Done {
    let file = local_file(root);
    let c = settings_at(m, file);
    let n = v.len();
    if n == 0 {
        Done { m, s: printed(s, remote_lines(effective(m, root, g), verbose)), status: 0 }
    } else if n == 3 && v[0] == "add"@ {
        if !proper_key(remote_key(v[1])) {
            failed(m, s, "invalid remote name: "@ + v[1])
        } else {
            settings_stored(m, s, file, bind(c, remote_key(v[1]), seq![v[2]]))
        }
    } else if n == 2 && (v[0] == "remove"@ || v[0] == "rm"@) {
        if lookup(c, remote_key(v[1])) is None {
            Done { m, s: complained(s, "error: No such remote: '"@ + v[1] + "'\n"@), status: 2 }
        } else {
            settings_stored(m, s, file, unbind(c, remote_key(v[1])))
        }
    } else if n == 2 && v[0] == "get-url"@ {
        match value_in(c, remote_key(v[1])) {
            Some(url) => Done { m, s: printed(s, url + "\n"@), status: 0 },
            None => no_remote(m, s, v[1]),
        }
    } else if n == 3 && v[0] == "set-url"@ {
        if lookup(c, remote_key(v[1])) is None {
            no_remote(m, s, v[1])
        } else {
            settings_stored(m, s, file, bind(c, remote_key(v[1]), seq![v[2]]))
        }
    } else {
        misused(m, s, "usage: git remote [-v] [add|remove|get-url|set-url ...]"@)
    }
}

/// `git remote`.
pub open spec fn remote_done(m: Machine, s: Screen, g: Overrides, args: Seq<Seq<char>>) -> Done {
    match repo_root(m) {
        None => no_repo(m, s),
        Some(root) => remote_acted(
            m,
            s,
            root,
            g,
            given(args, "-v"@),
            plain_arguments(args),
        ),
    }
}

fn key_of_remote(name: &str) -> (r: String)
    ensures
        r@ == remote_key(name@),
{
    join3("remote.", to_ascii_lowercase(name).as_str(), ".url")
}

fn put_remote(system: &mut System, file: &str, c: Config, key: String, url: &str, io: &Io) -> (r: i32)
    ensures
        done(final(system)@, io@, r) == settings_stored(
            old(system)@,
            io@,
            file@,
            bind(c@, key@, seq![url@]),
        ),
{
    let mut c = c;
    let mut list: Vec<String> = Vec::new();
    list.push(copy_text(url));
    assert(texts(list@) =~= seq![url@]);
    c.insert(key, Values { list });
    let status = store_settings(system, file, &c);
    assert(settings_stored(old(system)@, io@, file@, c@).s == io@);
    status
}

fn act_remote(
    system: &mut System,
    root: &str,
    globals: &Globals,
    verbose: bool,
    v: &[String],
    io: &mut Io,
) -> (r: i32)
    ensures
        done(final(system)@, final(io)@, r) == remote_acted(
            old(system)@,
            old(io)@,
            root@,
            globals@,
            verbose,
            texts(v@),
        ),
{
    let file = git_path(root, "config");
    let c = read_config_file(system, file.as_str());
    let n: usize = v.len();
    let ghost all = texts(v@);
    assert(all.len() == n);
    assert(forall|k: int| 0 <= k < n ==> all[k] == #[trigger] v@[k]@);
    if n == 0 {
        let seen = effective_config(system, root, globals);
        io.print(list_remotes(&seen, verbose).as_str());
        return 0;
    }
    if n == 2 {
        let a = v[0].as_str();
        let key = key_of_remote(v[1].as_str());
        if same(a, "remove") || same(a, "rm") {
            if !c.contains_key(key.as_str()) {
                io.print_err(
                    join3("error: No such remote: '", v[1].as_str(), "'\n").as_str(),
                );
                return 2;
            }
            let mut c = c;
            c.remove(key.as_str());
            let status = store_settings(system, file.as_str(), &c);
            assert(settings_stored(old(system)@, io@, file@, c@).s == io@);
            return status;
        }
        if same(a, "get-url") {
            return match config_value(&c, key.as_str()) {
                Some(url) => {
                    io.print(join2(url, "\n").as_str());
                    0
                },
                None => {
                    io.print_err(
                        join3("error: No such remote '", v[1].as_str(), "'\n").as_str(),
                    );
                    2
                },
            };
        }
    }
    if n == 3 {
        let a = v[0].as_str();
        let key = key_of_remote(v[1].as_str());
        if same(a, "add") {
            if !valid_config_key(key.as_str()) {
                return fatal(io, join2("invalid remote name: ", v[1].as_str()).as_str());
            }
            return put_remote(system, file.as_str(), c, key, v[2].as_str(), io);
        }
        if same(a, "set-url") {
            if !c.contains_key(key.as_str()) {
                io.print_err(join3("error: No such remote '", v[1].as_str(), "'\n").as_str());
                return 2;
            }
            return put_remote(system, file.as_str(), c, key, v[2].as_str(), io);
        }
    }
    usage(io, "usage: git remote [-v] [add|remove|get-url|set-url ...]")
}

/// `git remote`: records remotes. Nothing contacts them.
pub fn git_remote(system: &mut System, globals: &Globals, args: &[String], io: &mut Io) -> (r: i32)
    ensures
        done(final(system)@, final(io)@, r) == remote_done(
            old(system)@,
            old(io)@,
            globals@,
            texts(args@),
        ),
{
    let root = match find_repo_root(system) {
        Some(root) => root,
        None => return repo_error(io),
    };
    let verbose = is_given(args, "-v");
    let v = read_plain(args);
    act_remote(system, root.as_str(), globals, verbose, v.as_slice(), io)
}

} // verus!
