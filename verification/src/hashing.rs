//! Digests, encodings and dumps as commands: the `sha*sum` family, `cksum`, `base64`, `hexdump` and
//! `strings`.

use vstd::prelude::*;

use crate::bytes::{decode_lossy, loose_text};
use crate::common::{describe_unreadable, done, unreadable};
use crate::console::{complained, printed, Done, Io, Screen};
use crate::digests::{checksum, cksum, md5, md5_digest, sha256, sha256_digest, sha512, sha512_digest};
use crate::encoding::{base64, base64_decode, base64_encode, unbase64};
use crate::hashes::{encode_hex, hex, sha1_digest, sha1_hex, sha1_text};
use crate::numbers::{decimal, format_u64, format_usize};
use crate::order::{bind, OrdMap};
use crate::registry::{light, reg, CommandSpec, Commands, Program, Trust};
use crate::repo::{opt_bytes, read_all, readable};
use crate::system::{charged, resolve_against, resolved, Machine, System, STOPPED};
use crate::text::{
    after_prefix, chars_of, copy_bytes, copy_text, cut_at_space, cut_once, is_space, is_whitespace, join2, join3,
    join4, lemma_texts_push, line_list, lines, same, space_from, split_at_space, split_once, starts, starts_with,
    strip_prefix,
    texts, trim_start, trim_start_matches, trimmed_start, without_leading,
};

verus! {

/// The table with the commands of this module.
pub open spec fn registered(m: Commands) -> Commands {
    let whole = Trust::Real;
    let partial = Trust::Partial;
    let m1 = bind(m, "/usr/bin/sha256sum"@, light(whole, Program::Sha256Sum));
    let m2 = bind(m1, "/usr/bin/sha1sum"@, light(whole, Program::Sha1Sum));
    let m3 = bind(m2, "/usr/bin/sha512sum"@, light(whole, Program::Sha512Sum));
    let m4 = bind(m3, "/usr/bin/md5sum"@, light(whole, Program::Md5Sum));
    let m5 = bind(m4, "/usr/bin/cksum"@, light(whole, Program::Cksum));
    let m6 = bind(m5, "/usr/bin/base64"@, light(whole, Program::Base64));
    let m7 = bind(m6, "/usr/bin/base32"@, light(whole, Program::Base64));
    let m8 = bind(m7, "/usr/bin/xxd"@, light(partial, Program::Hexdump));
    let m9 = bind(m8, "/usr/bin/hexdump"@, light(partial, Program::Hexdump));
    let m10 = bind(m9, "/usr/bin/od"@, light(partial, Program::Hexdump));
    bind(m10, "/usr/bin/strings"@, light(whole, Program::Strings))
}

/// Enters the commands of this module.
pub fn register(m: &mut OrdMap<CommandSpec>)
    ensures
        final(m)@ == registered(old(m)@),
{
    reg(m, "/usr/bin/sha256sum", Trust::Real, Program::Sha256Sum);
    reg(m, "/usr/bin/sha1sum", Trust::Real, Program::Sha1Sum);
    reg(m, "/usr/bin/sha512sum", Trust::Real, Program::Sha512Sum);
    reg(m, "/usr/bin/md5sum", Trust::Real, Program::Md5Sum);
    reg(m, "/usr/bin/cksum", Trust::Real, Program::Cksum);
    reg(m, "/usr/bin/base64", Trust::Real, Program::Base64);
    reg(m, "/usr/bin/base32", Trust::Real, Program::Base64);
    reg(m, "/usr/bin/xxd", Trust::Partial, Program::Hexdump);
    reg(m, "/usr/bin/hexdump", Trust::Partial, Program::Hexdump);
    reg(m, "/usr/bin/od", Trust::Partial, Program::Hexdump);
    reg(m, "/usr/bin/strings", Trust::Real, Program::Strings);
}

// ---------------------------------------------------------------------------
// Arguments
// ---------------------------------------------------------------------------

/// The arguments of a command: letters, words and operands.
pub struct Parts {
    pub letters: Vec<char>,
    pub words: Vec<String>,
    pub operands: Vec<String>,
}

/// The arguments of a command: letters, words and operands.
#[verifier::ext_equal]
pub struct Split {
    pub letters: Seq<char>,
    pub words: Seq<Seq<char>>,
    pub operands: Seq<Seq<char>>,
}

impl View for Parts {
    type V = Split;

    open spec fn view(&self) -> Split {
        Split {
            letters: self.letters@,
            words: texts(self.words@),
            operands: texts(self.operands@),
        }
    }
}

/// The arguments from `i` on, with those that were read before. A word loses its value; a bare dash
/// is an operand, and so is everything behind `--`.
pub open spec fn parts_from(args: Seq<Seq<char>>, x: Split, i: int) -> Split
    decreases args.len() - i,
{
    if i < 0 || i >= args.len() {
        x
    } else if args[i] == "--"@ {
        Split { operands: x.operands + args.subrange(i + 1, args.len() as int), ..x }
    } else {
        match after_prefix(args[i], "--"@) {
            Some(word) => parts_from(
                args,
                Split {
                    words: x.words.push(
                        match cut_once(word, '=') {
                            Some((name, _)) => name,
                            None => word,
                        },
                    ),
                    ..x
                },
                i + 1,
            ),
            None => if starts(args[i], "-"@) && args[i].len() > 1 {
                parts_from(
                    args,
                    Split {
                        letters: x.letters + args[i].subrange(1, args[i].len() as int),
                        ..x
                    },
                    i + 1,
                )
            } else {
                parts_from(args, Split { operands: x.operands.push(args[i]), ..x }, i + 1)
            },
        }
    }
}

/// The arguments of a command.
pub open spec fn parts_of(args: Seq<Seq<char>>) -> Split {
    parts_from(args, Split { letters: seq![], words: seq![], operands: seq![] }, 0)
}

fn add_letters(letters: &mut Vec<char>, word: &[char])
    requires
        word@.len() > 0,
    ensures
        final(letters)@ == old(letters)@ + word@.subrange(1, word@.len() as int),
{
    let mut k: usize = 1;
    assert(letters@ =~= letters@ + word@.subrange(1, 1));
    while k < word.len()
        invariant
            1 <= k <= word@.len(),
            letters@ == old(letters)@ + word@.subrange(1, k as int),
        decreases word@.len() - k,
    {
        letters.push(word[k]);
        assert(letters@ =~= old(letters)@ + word@.subrange(1, k + 1));
        k += 1;
    }
}

/// Splits the arguments of a command.
pub fn split_flags(args: &[String]) -> (r: Parts)
    ensures
        r@ == parts_of(texts(args@)),
{
    let ghost all = texts(args@);
    let mut x = Parts { letters: Vec::new(), words: Vec::new(), operands: Vec::new() };
    let mut i: usize = 0;
    assert(x@ =~= (Split { letters: seq![], words: seq![], operands: seq![] }));
    let ghost goal = parts_of(all);
    while i < args.len()
        invariant
            i <= args@.len(),
            all == texts(args@),
            goal == parts_of(all),
            goal == parts_from(all, x@, i as int),
        decreases args@.len() - i,
    {
        broadcast use lemma_texts_push;

        assert(all.len() == args@.len());
        assert(all[i as int] == args@[i as int]@);
        let a = args[i].as_str();
        if same(a, "--") {
            let mut rest = crate::text::copy_texts(
                vstd::slice::slice_subrange(args, i + 1, args.len()),
            );
            let ghost p = x.operands@;
            let ghost q = rest@;
            assert(texts(q) =~= all.subrange(i + 1, all.len() as int));
            x.operands.append(&mut rest);
            assert(texts(x.operands@) =~= texts(p) + texts(q));
            return x;
        }
        if let Some(word) = strip_prefix(a, "--") {
            let name = match split_once(word.as_str(), '=') {
                Some((name, _)) => name,
                None => word,
            };
            x.words.push(name);
        } else {
            let cs = chars_of(a);
            if starts_with(a, "-") && cs.len() > 1 {
                add_letters(&mut x.letters, cs.as_slice());
            } else {
                x.operands.push(copy_text(a));
            }
        }
        i += 1;
    }
    assert(all.len() == args@.len());
    x
}

/// Whether a command reads standard input: it has no operand, or a bare dash among them.
pub open spec fn reads_stdin(operands: Seq<Seq<char>>) -> bool {
    operands.len() == 0 || operands.contains("-"@)
}

/// Whether a command reads standard input.
pub fn uses_standard_input(operands: &[String]) -> (r: bool)
    ensures
        r == reads_stdin(texts(operands@)),
{
    let ghost all = texts(operands@);
    assert(all.len() == operands@.len());
    if operands.len() == 0 {
        return true;
    }
    let mut i: usize = 0;
    while i < operands.len()
        invariant
            i <= operands@.len(),
            all == texts(operands@),
            forall|k: int| 0 <= k < i ==> all[k] != "-"@,
        decreases operands@.len() - i,
    {
        assert(all.len() == operands@.len());
        assert(all[i as int] == operands@[i as int]@);
        if same(operands[i].as_str(), "-") {
            assert(all[i as int] == "-"@);
            return true;
        }
        i += 1;
    }
    assert(all.len() == operands@.len());
    assert(!all.contains("-"@)) by {
        if all.contains("-"@) {
            let k = choose|k: int| 0 <= k < all.len() && all[k] == "-"@;
            assert(all[k] != "-"@);
        }
    }
    false
}

/// The bytes of a file that fits into memory, by its name in the working directory.
pub open spec fn named(m: Machine, name: Seq<char>) -> Option<Seq<u8>> {
    readable(m, resolved(m.cwd, name))
}

fn read_named(system: &System, name: &str) -> (r: Option<Vec<u8>>)
    ensures
        opt_bytes(r) == named(system@, name@),
{
    read_all(system, resolve_against(system.cwd().as_str(), name).as_str())
}

/// Why a file cannot be read, by its name in the working directory.
pub open spec fn name_unreadable(m: Machine, name: Seq<char>) -> Seq<char> {
    name + ": "@ + unreadable(m, resolved(m.cwd, name))
}

fn describe_name(system: &System, name: &str) -> (r: String)
    ensures
        r@ == name_unreadable(system@, name@),
{
    let path = resolve_against(system.cwd().as_str(), name);
    join3(name, ": ", describe_unreadable(system, path.as_str()).as_str())
}

/// The bytes of the operands from `i` on, with those that were read before; a bare dash stands for
/// standard input. Or why the first that cannot be read cannot.
pub open spec fn joined_inputs(m: Machine, stdin: Seq<u8>, v: Seq<Seq<char>>, out: Seq<u8>, i: int) -> Result<
    Seq<u8>,
    Seq<char>,
>
    decreases v.len() - i,
{
    if i < 0 || i >= v.len() {
        Ok(out)
    } else if v[i] == "-"@ {
        joined_inputs(m, stdin, v, out + stdin, i + 1)
    } else {
        match named(m, v[i]) {
            Some(data) => joined_inputs(m, stdin, v, out + data, i + 1),
            None => Err(name_unreadable(m, v[i])),
        }
    }
}

/// What a command reads: its operands, or standard input where it has none.
pub open spec fn all_input(m: Machine, stdin: Seq<u8>, v: Seq<Seq<char>>) -> Result<Seq<u8>, Seq<char>> {
    if v.len() == 0 {
        Ok(stdin)
    } else {
        joined_inputs(m, stdin, v, seq![], 0)
    }
}

fn read_input(system: &System, stdin: &[u8], v: &[String]) -> (r: Result<Vec<u8>, String>)
    ensures
        match r {
            Ok(data) => all_input(system@, stdin@, texts(v@)) == Ok::<Seq<u8>, Seq<char>>(data@),
            Err(e) => all_input(system@, stdin@, texts(v@)) == Err::<Seq<u8>, Seq<char>>(e@),
        },
{
    let ghost all = texts(v@);
    assert(all.len() == v@.len());
    if v.len() == 0 {
        return Ok(copy_bytes(stdin));
    }
    let mut out: Vec<u8> = Vec::new();
    let mut i: usize = 0;
    assert(out@ =~= seq![]);
    let ghost goal = joined_inputs(system@, stdin@, all, seq![], 0);
    while i < v.len()
        invariant
            i <= v@.len(),
            all == texts(v@),
            all.len() > 0,
            goal == joined_inputs(system@, stdin@, all, seq![], 0),
            goal == joined_inputs(system@, stdin@, all, out@, i as int),
        decreases v@.len() - i,
    {
        assert(all.len() == v@.len());
        assert(all[i as int] == v@[i as int]@);
        let ghost was = out@;
        if same(v[i].as_str(), "-") {
            let mut more = copy_bytes(stdin);
            out.append(&mut more);
            assert(out@ =~= was + stdin@);
        } else {
            match read_named(system, v[i].as_str()) {
                Some(mut more) => {
                    let ghost data = more@;
                    out.append(&mut more);
                    assert(out@ =~= was + data);
                },
                None => return Err(describe_name(system, v[i].as_str())),
            }
        }
        i += 1;
    }
    assert(all.len() == v@.len());
    Ok(out)
}

// ---------------------------------------------------------------------------
// Digests
// ---------------------------------------------------------------------------

/// The digests that can be computed.
#[derive(Clone, Copy, PartialEq, Eq, Structural)]
pub enum Algorithm {
    Sha256,
    Sha1,
    Sha512,
    Md5,
    Crc32,
}

/// The name of a digest.
pub open spec fn algorithm_name(a: Algorithm) -> Seq<char> {
    match a {
        Algorithm::Sha256 => "sha256"@,
        Algorithm::Sha1 => "sha1"@,
        Algorithm::Sha512 => "sha512"@,
        Algorithm::Md5 => "md5"@,
        Algorithm::Crc32 => "crc32"@,
    }
}

/// A digest as it is printed.
pub open spec fn digest_text(a: Algorithm, data: Seq<u8>) -> Seq<char> {
    match a {
        Algorithm::Sha256 => hex(sha256_digest(data)),
        Algorithm::Sha1 => sha1_text(data),
        Algorithm::Sha512 => hex(sha512_digest(data)),
        Algorithm::Md5 => hex(md5_digest(data)),
        Algorithm::Crc32 => decimal(checksum(data) as nat) + " "@ + decimal(data.len()),
    }
}

impl Algorithm {
    fn name(self) -> (r: &'static str)
        ensures
            r@ == algorithm_name(self),
    {
        match self {
            Algorithm::Sha256 => "sha256",
            Algorithm::Sha1 => "sha1",
            Algorithm::Sha512 => "sha512",
            Algorithm::Md5 => "md5",
            Algorithm::Crc32 => "crc32",
        }
    }

    /// The digest of `data` as it is printed.
    pub fn digest(self, data: &[u8]) -> (r: String)
        ensures
            r@ == digest_text(self, data@),
    {
        match self {
            Algorithm::Sha256 => encode_hex(sha256(data).as_slice()),
            Algorithm::Sha1 => sha1_hex(data),
            Algorithm::Sha512 => encode_hex(sha512(data).as_slice()),
            Algorithm::Md5 => encode_hex(md5(data).as_slice()),
            Algorithm::Crc32 => join3(
                format_u64(cksum(data) as u64).as_str(),
                " ",
                format_usize(data.len()).as_str(),
            ),
        }
    }
}

/// A complaint of a command that computes digests.
pub open spec fn sum_error(s: Screen, a: Algorithm, message: Seq<char>) -> Screen {
    complained(s, algorithm_name(a) + "sum: "@ + message + "\n"@)
}

fn print_sum_error(io: &mut Io, a: Algorithm, message: &str)
    ensures
        final(io)@ == sum_error(old(io)@, a, message@),
{
    io.print_err(join4(a.name(), "sum: ", message, "\n").as_str());
}

/// The file that a line of a list names.
pub open spec fn listed_file(rest: Seq<char>) -> Seq<char> {
    without_leading(trimmed_start(rest), '*')
}

/// The lines of a list from `i` on held against the files they name: the status so far, or none
/// where a budget ran out.
pub open spec fn lines_checked(
    m: Machine,
    s: Screen,
    a: Algorithm,
    v: Seq<Seq<char>>,
    status: int,
    i: int,
) -> (Machine, Screen, Option<int>)
    decreases v.len() - i,
{
    if i < 0 || i >= v.len() {
        (m, s, Some(status))
    } else {
        match cut_at_space(v[i]) {
            None => lines_checked(
                m,
                sum_error(s, a, "malformed checksum line"@),
                a,
                v,
                1,
                i + 1,
            ),
            Some((expected, rest)) => {
                let name = listed_file(rest);
                match named(m, name) {
                    None => lines_checked(
                        m,
                        sum_error(s, a, name_unreadable(m, name)),
                        a,
                        v,
                        1,
                        i + 1,
                    ),
                    Some(data) => {
                        let (enough, n) = charged(m, data.len() as int);
                        if !enough {
                            (n, s, None)
                        } else if digest_text(a, data) == expected {
                            lines_checked(n, printed(s, name + ": OK\n"@), a, v, status, i + 1)
                        } else {
                            lines_checked(n, printed(s, name + ": FAILED\n"@), a, v, 1, i + 1)
                        }
                    },
                }
            },
        }
    }
}

/// What checking gave.
pub open spec fn opt_status(o: Option<i32>) -> Option<int> {
    match o {
        Some(x) => Some(x as int),
        None => None,
    }
}

fn check_lines(system: &mut System, a: Algorithm, v: &[String], before: i32, io: &mut Io) -> (r: Option<i32>)
    ensures
        (final(system)@, final(io)@, opt_status(r)) == lines_checked(
            old(system)@,
            old(io)@,
            a,
            texts(v@),
            before as int,
            0,
        ),
{
    let ghost all = texts(v@);
    let mut status: i32 = before;
    let mut i: usize = 0;
    let ghost goal = lines_checked(system@, io@, a, all, before as int, 0);
    while i < v.len()
        invariant
            i <= v@.len(),
            all == texts(v@),
            goal == lines_checked(old(system)@, old(io)@, a, all, before as int, 0),
            goal == lines_checked(system@, io@, a, all, status as int, i as int),
        decreases v@.len() - i,
    {
        assert(all.len() == v@.len());
        assert(all[i as int] == v@[i as int]@);
        match split_at_space(v[i].as_str()) {
            None => {
                print_sum_error(io, a, "malformed checksum line");
                status = 1;
            },
            Some((expected, rest)) => {
                let name = trim_start_matches(trim_start(rest.as_str()).as_str(), '*');
                match read_named(system, name.as_str()) {
                    None => {
                        let why = describe_name(system, name.as_str());
                        print_sum_error(io, a, why.as_str());
                        status = 1;
                    },
                    Some(data) => {
                        if !system.charge_cpu(data.len() as u64) {
                            return None;
                        }
                        if same(a.digest(data.as_slice()).as_str(), expected.as_str()) {
                            io.print(join2(name.as_str(), ": OK\n").as_str());
                        } else {
                            io.print(join2(name.as_str(), ": FAILED\n").as_str());
                            status = 1;
                        }
                    },
                }
            },
        }
        i += 1;
    }
    assert(all.len() == v@.len());
    Some(status)
}

/// Checking the lists from `i` on.
pub open spec fn lists_checked(
    m: Machine,
    s: Screen,
    a: Algorithm,
    v: Seq<Seq<char>>,
    status: int,
    i: int,
) -> Done
    decreases v.len() - i,
{
    if i < 0 || i >= v.len() {
        Done { m, s, status }
    } else {
        let data = if v[i] == "-"@ {
            Some(s.stdin)
        } else {
            named(m, v[i])
        };
        match data {
            None => lists_checked(
                m,
                sum_error(s, a, name_unreadable(m, v[i])),
                a,
                v,
                1,
                i + 1,
            ),
            Some(bytes) => {
                let (enough, n) = charged(m, bytes.len() as int);
                if !enough {
                    Done { m: n, s, status: STOPPED as int }
                } else {
                    match lines_checked(n, s, a, line_list(loose_text(bytes)), status, 0) {
                        (k, t, None) => Done { m: k, s: t, status: STOPPED as int },
                        (k, t, Some(e)) => lists_checked(k, t, a, v, e, i + 1),
                    }
                }
            },
        }
    }
}

fn check_lists(system: &mut System, a: Algorithm, v: &[String], io: &mut Io) -> (r: i32)
    ensures
        done(final(system)@, final(io)@, r) == lists_checked(
            old(system)@,
            old(io)@,
            a,
            texts(v@),
            0,
            0,
        ),
{
    let ghost all = texts(v@);
    let mut status: i32 = 0;
    let mut i: usize = 0;
    let ghost goal = lists_checked(system@, io@, a, all, 0, 0);
    while i < v.len()
        invariant
            i <= v@.len(),
            all == texts(v@),
            goal == lists_checked(old(system)@, old(io)@, a, all, 0, 0),
            goal == lists_checked(system@, io@, a, all, status as int, i as int),
        decreases v@.len() - i,
    {
        assert(all.len() == v@.len());
        assert(all[i as int] == v@[i as int]@);
        let data = if same(v[i].as_str(), "-") {
            Some(copy_bytes(io.stdin.as_slice()))
        } else {
            read_named(system, v[i].as_str())
        };
        match data {
            None => {
                let why = describe_name(system, v[i].as_str());
                print_sum_error(io, a, why.as_str());
                status = 1;
            },
            Some(bytes) => {
                if !system.charge_cpu(bytes.len() as u64) {
                    return STOPPED;
                }
                let rows = lines(decode_lossy(bytes.as_slice()).as_str());
                match check_lines(system, a, rows.as_slice(), status, io) {
                    Some(e) => status = e,
                    None => return STOPPED,
                }
            },
        }
        i += 1;
    }
    assert(all.len() == v@.len());
    status
}

/// Printing the digests of the files from `i` on.
pub open spec fn files_summed(m: Machine, s: Screen, a: Algorithm, v: Seq<Seq<char>>, status: int, i: int) -> Done
    decreases v.len() - i,
{
    if i < 0 || i >= v.len() {
        Done { m, s, status }
    } else {
        match named(m, v[i]) {
            None => files_summed(m, sum_error(s, a, name_unreadable(m, v[i])), a, v, 1, i + 1),
            Some(data) => {
                let (enough, n) = charged(m, data.len() as int);
                if !enough {
                    Done { m: n, s, status: STOPPED as int }
                } else {
                    files_summed(
                        n,
                        printed(s, digest_text(a, data) + "  "@ + v[i] + "\n"@),
                        a,
                        v,
                        status,
                        i + 1,
                    )
                }
            },
        }
    }
}

fn sum_files(system: &mut System, a: Algorithm, v: &[String], io: &mut Io) -> (r: i32)
    ensures
        done(final(system)@, final(io)@, r) == files_summed(
            old(system)@,
            old(io)@,
            a,
            texts(v@),
            0,
            0,
        ),
{
    let ghost all = texts(v@);
    let mut status: i32 = 0;
    let mut i: usize = 0;
    let ghost goal = files_summed(system@, io@, a, all, 0, 0);
    while i < v.len()
        invariant
            i <= v@.len(),
            all == texts(v@),
            goal == files_summed(old(system)@, old(io)@, a, all, 0, 0),
            goal == files_summed(system@, io@, a, all, status as int, i as int),
        decreases v@.len() - i,
    {
        assert(all.len() == v@.len());
        assert(all[i as int] == v@[i as int]@);
        match read_named(system, v[i].as_str()) {
            None => {
                let why = describe_name(system, v[i].as_str());
                print_sum_error(io, a, why.as_str());
                status = 1;
            },
            Some(data) => {
                if !system.charge_cpu(data.len() as u64) {
                    return STOPPED;
                }
                let digest = a.digest(data.as_slice());
                io.print(join4(digest.as_str(), "  ", v[i].as_str(), "\n").as_str());
            },
        }
        i += 1;
    }
    assert(all.len() == v@.len());
    status
}

/// Whether a letter is none of those that the digest commands know.
pub open spec fn strange_letter(c: char) -> bool {
    c != 'b' && c != 'c' && c != 't'
}

/// Whether some letter is unknown to the digest commands.
pub open spec fn some_strange(letters: Seq<char>) -> bool {
    exists|i: int| 0 <= i < letters.len() && strange_letter(#[trigger] letters[i])
}

/// What a digest command does: it prints the digests of files or of standard input, or checks
/// lists of them.
pub open spec fn sum_done(m: Machine, s: Screen, a: Algorithm, args: Seq<Seq<char>>) -> Done {
    let x = parts_of(args);
    if some_strange(x.letters) {
        Done { m, s: sum_error(s, a, "unimplemented option"@), status: 2 }
    } else if x.letters.contains('c') {
        lists_checked(
            m,
            s,
            a,
            if x.operands.len() == 0 {
                seq!["-"@]
            } else {
                x.operands
            },
            0,
            0,
        )
    } else if x.operands.len() == 0 {
        let (enough, n) = charged(m, s.stdin.len() as int);
        if !enough {
            Done { m: n, s, status: STOPPED as int }
        } else {
            Done { m: n, s: printed(s, digest_text(a, s.stdin) + "  -\n"@), status: 0 }
        }
    } else {
        files_summed(m, s, a, x.operands, 0, 0)
    }
}

fn any_strange(letters: &[char]) -> (r: bool)
    ensures
        r == some_strange(letters@),
{
    let mut i: usize = 0;
    while i < letters.len()
        invariant
            i <= letters@.len(),
            forall|k: int| 0 <= k < i ==> !strange_letter(#[trigger] letters@[k]),
        decreases letters@.len() - i,
    {
        let c = letters[i];
        if c != 'b' && c != 'c' && c != 't' {
            assert(strange_letter(letters@[i as int]));
            return true;
        }
        i += 1;
    }
    false
}

fn holds_letter(letters: &[char], c: char) -> (r: bool)
    ensures
        r == letters@.contains(c),
{
    let mut i: usize = 0;
    while i < letters.len()
        invariant
            i <= letters@.len(),
            forall|k: int| 0 <= k < i ==> letters@[k] != c,
        decreases letters@.len() - i,
    {
        if letters[i] == c {
            return true;
        }
        i += 1;
    }
    false
}

/// A digest command.
pub fn hash_impl(system: &mut System, a: Algorithm, args: &[String], io: &mut Io) -> (r: i32)
    ensures
        done(final(system)@, final(io)@, r) == sum_done(old(system)@, old(io)@, a, texts(args@)),
{
    let x = split_flags(args);
    if any_strange(x.letters.as_slice()) {
        print_sum_error(io, a, "unimplemented option");
        return 2;
    }
    assert(texts(x.operands@).len() == x.operands@.len());
    if holds_letter(x.letters.as_slice(), 'c') {
        if x.operands.len() == 0 {
            let mut v: Vec<String> = Vec::new();
            v.push(copy_text("-"));
            assert(texts(v@) =~= seq!["-"@]);
            return check_lists(system, a, v.as_slice(), io);
        }
        return check_lists(system, a, x.operands.as_slice(), io);
    }
    if x.operands.len() == 0 {
        if !system.charge_cpu(io.stdin.len() as u64) {
            return STOPPED;
        }
        let digest = a.digest(io.stdin.as_slice());
        io.print(join2(digest.as_str(), "  -\n").as_str());
        return 0;
    }
    sum_files(system, a, x.operands.as_slice(), io)
}

/// `sha256sum`.
pub fn cmd_sha256sum(system: &mut System, args: &[String], io: &mut Io) -> (r: i32)
    ensures
        done(final(system)@, final(io)@, r) == sum_done(
            old(system)@,
            old(io)@,
            Algorithm::Sha256,
            texts(args@),
        ),
{
    hash_impl(system, Algorithm::Sha256, args, io)
}

/// `sha1sum`.
pub fn cmd_sha1sum(system: &mut System, args: &[String], io: &mut Io) -> (r: i32)
    ensures
        done(final(system)@, final(io)@, r) == sum_done(
            old(system)@,
            old(io)@,
            Algorithm::Sha1,
            texts(args@),
        ),
{
    hash_impl(system, Algorithm::Sha1, args, io)
}

/// `sha512sum`.
pub fn cmd_sha512sum(system: &mut System, args: &[String], io: &mut Io) -> (r: i32)
    ensures
        done(final(system)@, final(io)@, r) == sum_done(
            old(system)@,
            old(io)@,
            Algorithm::Sha512,
            texts(args@),
        ),
{
    hash_impl(system, Algorithm::Sha512, args, io)
}

/// `md5sum`.
pub fn cmd_md5sum(system: &mut System, args: &[String], io: &mut Io) -> (r: i32)
    ensures
        done(final(system)@, final(io)@, r) == sum_done(
            old(system)@,
            old(io)@,
            Algorithm::Md5,
            texts(args@),
        ),
{
    hash_impl(system, Algorithm::Md5, args, io)
}

/// `cksum`.
pub fn cmd_cksum(system: &mut System, args: &[String], io: &mut Io) -> (r: i32)
    ensures
        done(final(system)@, final(io)@, r) == sum_done(
            old(system)@,
            old(io)@,
            Algorithm::Crc32,
            texts(args@),
        ),
{
    hash_impl(system, Algorithm::Crc32, args, io)
}

// ---------------------------------------------------------------------------
// base64, hexdump and strings
// ---------------------------------------------------------------------------

/// Reading what a command reads, and paying for it: the bytes, or what is said and the status.
pub open spec fn input_paid(m: Machine, s: Screen, command: Seq<char>, operands: Seq<Seq<char>>) -> (
    Machine,
    Screen,
    Result<Seq<u8>, int>,
) {
    match all_input(m, s.stdin, operands) {
        Err(e) => (m, complained(s, command + ": "@ + e + "\n"@), Err(1)),
        Ok(data) => {
            let (enough, n) = charged(m, data.len() as int);
            if enough {
                (n, s, Ok(data))
            } else {
                (n, s, Err(STOPPED as int))
            }
        },
    }
}

/// What reading gave.
pub open spec fn got_bytes(r: Result<Vec<u8>, i32>) -> Result<Seq<u8>, int> {
    match r {
        Ok(v) => Ok(v@),
        Err(e) => Err(e as int),
    }
}

fn pay_for_input(system: &mut System, command: &str, operands: &[String], io: &mut Io) -> (r: Result<
    Vec<u8>,
    i32,
>)
    ensures
        (final(system)@, final(io)@, got_bytes(r)) == input_paid(
            old(system)@,
            old(io)@,
            command@,
            texts(operands@),
        ),
{
    match read_input(system, io.stdin.as_slice(), operands) {
        Err(e) => {
            io.print_err(join4(command, ": ", e.as_str(), "\n").as_str());
            Err(1)
        },
        Ok(data) => {
            if system.charge_cpu(data.len() as u64) {
                Ok(data)
            } else {
                Err(STOPPED)
            }
        },
    }
}

/// A text without its whitespace.
pub open spec fn squeezed(s: Seq<char>) -> Seq<char> {
    s.filter(|c: char| !is_space(c))
}

fn squeeze(s: &str) -> (r: String)
    ensures
        r@ == squeezed(s@),
{
    let cs = chars_of(s);
    let ghost keep = |c: char| !is_space(c);
    let mut out = String::new();
    let mut i: usize = 0;
    while i < cs.len()
        invariant
            i <= cs@.len(),
            keep == |c: char| !is_space(c),
            out@ == cs@.take(i as int).filter(keep),
        decreases cs@.len() - i,
    {
        let ghost part = cs@.take(i + 1);
        assert(part.drop_last() =~= cs@.take(i as int));
        assert(part.last() == cs@[i as int]);
        proof {
            reveal(Seq::filter);
        }
        if !is_whitespace(cs[i]) {
            out.push(cs[i]);
        }
        assert(out@ == part.filter(keep));
        i += 1;
    }
    assert(cs@.take(i as int) =~= cs@);
    out
}

/// Whether the options of `base64` are all known.
pub open spec fn base64_options(x: Split) -> bool {
    &&& forall|i: int| 0 <= i < x.letters.len() ==> #[trigger] x.letters[i] == 'd'
    &&& forall|i: int| 0 <= i < x.words.len() ==> #[trigger] x.words[i] == "decode"@
}

/// What `base64` does. Decoding is asked for by its one option.
pub open spec fn base64_done(m: Machine, s: Screen, args: Seq<Seq<char>>) -> Done {
    let x = parts_of(args);
    if !base64_options(x) {
        Done { m, s: complained(s, "base64: unimplemented option\n"@), status: 2 }
    } else {
        match input_paid(m, s, "base64"@, x.operands) {
            (n, t, Err(status)) => Done { m: n, s: t, status },
            (n, t, Ok(data)) => if x.letters.len() > 0 || x.words.len() > 0 {
                match unbase64(squeezed(loose_text(data))) {
                    Some(bytes) => Done { m: n, s: Screen { out: t.out + bytes, ..t }, status: 0 },
                    None => Done { m: n, s: t, status: 1 },
                }
            } else {
                Done { m: n, s: printed(t, base64(data) + "\n"@), status: 0 }
            },
        }
    }
}

fn are_base64_options(x: &Parts) -> (r: bool)
    ensures
        r == base64_options(x@),
{
    let mut i: usize = 0;
    while i < x.letters.len()
        invariant
            i <= x.letters@.len(),
            forall|k: int| 0 <= k < i ==> #[trigger] x.letters@[k] == 'd',
        decreases x.letters@.len() - i,
    {
        if x.letters[i] != 'd' {
            assert(x@.letters[i as int] != 'd');
            return false;
        }
        i += 1;
    }
    let ghost all = texts(x.words@);
    let mut j: usize = 0;
    while j < x.words.len()
        invariant
            j <= x.words@.len(),
            all == texts(x.words@),
            forall|k: int| 0 <= k < j ==> #[trigger] all[k] == "decode"@,
        decreases x.words@.len() - j,
    {
        assert(all[j as int] == x.words@[j as int]@);
        if !same(x.words[j].as_str(), "decode") {
            assert(x@.words[j as int] != "decode"@);
            return false;
        }
        j += 1;
    }
    true
}

/// `base64`.
pub fn cmd_base64(system: &mut System, args: &[String], io: &mut Io) -> (r: i32)
    ensures
        done(final(system)@, final(io)@, r) == base64_done(old(system)@, old(io)@, texts(args@)),
{
    let x = split_flags(args);
    if !are_base64_options(&x) {
        io.print_err("base64: unimplemented option\n");
        return 2;
    }
    let data = match pay_for_input(system, "base64", x.operands.as_slice(), io) {
        Ok(d) => d,
        Err(e) => return e,
    };
    assert(texts(x.words@).len() == x.words@.len());
    if x.letters.len() > 0 || x.words.len() > 0 {
        let text = squeeze(decode_lossy(data.as_slice()).as_str());
        return match base64_decode(text.as_str()) {
            Some(bytes) => {
                io.print_bytes(bytes.as_slice());
                0
            },
            None => 1,
        };
    }
    io.print(join2(base64_encode(data.as_slice()).as_str(), "\n").as_str());
    0
}

/// What `hexdump` does.
pub open spec fn hexdump_done(m: Machine, s: Screen, args: Seq<Seq<char>>) -> Done {
    match input_paid(m, s, "hexdump"@, parts_of(args).operands) {
        (n, t, Err(status)) => Done { m: n, s: t, status },
        (n, t, Ok(data)) => Done { m: n, s: printed(t, hex(data) + "\n"@), status: 0 },
    }
}

/// `hexdump`.
pub fn cmd_hexdump(system: &mut System, args: &[String], io: &mut Io) -> (r: i32)
    ensures
        done(final(system)@, final(io)@, r) == hexdump_done(old(system)@, old(io)@, texts(args@)),
{
    let x = split_flags(args);
    let data = match pay_for_input(system, "hexdump", x.operands.as_slice(), io) {
        Ok(d) => d,
        Err(e) => return e,
    };
    io.print(join2(encode_hex(data.as_slice()).as_str(), "\n").as_str());
    0
}

/// Whether a byte can be printed.
pub open spec fn printable(b: u8) -> bool {
    32 <= b <= 126
}

/// A run of bytes that can be printed, as a line. Only runs of four or more make one.
pub open spec fn run_line(run: Seq<char>) -> Seq<char> {
    if run.len() >= 4 {
        run + "\n"@
    } else {
        ""@
    }
}

/// The runs of bytes that can be printed from `i` on; `run` is the one that is open.
pub open spec fn runs_from(data: Seq<u8>, run: Seq<char>, out: Seq<char>, i: int) -> Seq<char>
    decreases data.len() - i,
{
    if i < 0 || i >= data.len() {
        out + run_line(run)
    } else if printable(data[i]) {
        runs_from(data, run.push(data[i] as char), out, i + 1)
    } else {
        runs_from(data, seq![], out + run_line(run), i + 1)
    }
}

/// The runs of bytes that can be printed.
pub fn printable_runs(data: &[u8]) -> (r: String)
    ensures
        r@ == runs_from(data@, seq![], ""@, 0),
{
    let mut run: Vec<char> = Vec::new();
    let mut out = copy_text("");
    let mut i: usize = 0;
    assert(run@ =~= seq![]);
    let ghost goal = runs_from(data@, seq![], ""@, 0);
    while i < data.len()
        invariant
            i <= data@.len(),
            goal == runs_from(data@, run@, out@, i as int),
        decreases data@.len() - i,
    {
        let b = data[i];
        if 32 <= b && b <= 126 {
            run.push(b as char);
        } else {
            if run.len() >= 4 {
                out.append(join2(crate::text::text_of(run.as_slice()).as_str(), "\n").as_str());
            } else {
                out.append("");
            }
            run = Vec::new();
            assert(run@ =~= seq![]);
        }
        i += 1;
    }
    if run.len() >= 4 {
        out.append(join2(crate::text::text_of(run.as_slice()).as_str(), "\n").as_str());
    } else {
        out.append("");
    }
    out
}

/// What `strings` does.
pub open spec fn strings_done(m: Machine, s: Screen, args: Seq<Seq<char>>) -> Done {
    match input_paid(m, s, "strings"@, parts_of(args).operands) {
        (n, t, Err(status)) => Done { m: n, s: t, status },
        (n, t, Ok(data)) => Done {
            m: n,
            s: printed(t, runs_from(data, seq![], ""@, 0)),
            status: 0,
        },
    }
}

/// `strings`.
pub fn cmd_strings(system: &mut System, args: &[String], io: &mut Io) -> (r: i32)
    ensures
        done(final(system)@, final(io)@, r) == strings_done(old(system)@, old(io)@, texts(args@)),
{
    let x = split_flags(args);
    let data = match pay_for_input(system, "strings", x.operands.as_slice(), io) {
        Ok(d) => d,
        Err(e) => return e,
    };
    io.print(printable_runs(data.as_slice()).as_str());
    0
}

// ---------------------------------------------------------------------------
// What the digest commands keep
// ---------------------------------------------------------------------------

proof fn lemma_lines_only_read(m: Machine, s: Screen, a: Algorithm, v: Seq<Seq<char>>, status: int, i: int)
    ensures
        lines_checked(m, s, a, v, status, i).0.files == m.files,
    decreases v.len() - i,
{
    if 0 <= i < v.len() {
        match cut_at_space(v[i]) {
            None => lemma_lines_only_read(
                m,
                sum_error(s, a, "malformed checksum line"@),
                a,
                v,
                1,
                i + 1,
            ),
            Some((expected, rest)) => {
                let name = listed_file(rest);
                match named(m, name) {
                    None => lemma_lines_only_read(
                        m,
                        sum_error(s, a, name_unreadable(m, name)),
                        a,
                        v,
                        1,
                        i + 1,
                    ),
                    Some(data) => {
                        let n = charged(m, data.len() as int).1;
                        lemma_lines_only_read(n, printed(s, name + ": OK\n"@), a, v, status, i + 1);
                        lemma_lines_only_read(n, printed(s, name + ": FAILED\n"@), a, v, 1, i + 1);
                    },
                }
            },
        }
    }
}

proof fn lemma_lists_only_read(m: Machine, s: Screen, a: Algorithm, v: Seq<Seq<char>>, status: int, i: int)
    ensures
        lists_checked(m, s, a, v, status, i).m.files == m.files,
    decreases v.len() - i,
{
    if 0 <= i < v.len() {
        let data = if v[i] == "-"@ {
            Some(s.stdin)
        } else {
            named(m, v[i])
        };
        match data {
            None => lemma_lists_only_read(
                m,
                sum_error(s, a, name_unreadable(m, v[i])),
                a,
                v,
                1,
                i + 1,
            ),
            Some(bytes) => {
                let n = charged(m, bytes.len() as int).1;
                let all = line_list(loose_text(bytes));
                lemma_lines_only_read(n, s, a, all, status, 0);
                if let (k, t, Some(e)) = lines_checked(n, s, a, all, status, 0) {
                    lemma_lists_only_read(k, t, a, v, e, i + 1);
                }
            },
        }
    }
}

proof fn lemma_files_only_read(m: Machine, s: Screen, a: Algorithm, v: Seq<Seq<char>>, status: int, i: int)
    ensures
        files_summed(m, s, a, v, status, i).m.files == m.files,
    decreases v.len() - i,
{
    if 0 <= i < v.len() {
        match named(m, v[i]) {
            None => lemma_files_only_read(
                m,
                sum_error(s, a, name_unreadable(m, v[i])),
                a,
                v,
                1,
                i + 1,
            ),
            Some(data) => lemma_files_only_read(
                charged(m, data.len() as int).1,
                printed(s, digest_text(a, data) + "  "@ + v[i] + "\n"@),
                a,
                v,
                status,
                i + 1,
            ),
        }
    }
}

/// The digest commands only read.
pub proof fn lemma_sum_only_reads(m: Machine, s: Screen, a: Algorithm, args: Seq<Seq<char>>)
    ensures
        sum_done(m, s, a, args).m.files == m.files,
{
    let x = parts_of(args);
    lemma_lists_only_read(
        m,
        s,
        a,
        if x.operands.len() == 0 {
            seq!["-"@]
        } else {
            x.operands
        },
        0,
        0,
    );
    lemma_files_only_read(m, s, a, x.operands, 0, 0);
}

proof fn lemma_first_space(word: Seq<char>, rest: Seq<char>, i: int)
    requires
        0 <= i <= word.len(),
        forall|k: int| 0 <= k < word.len() ==> !is_space(#[trigger] word[k]),
        rest.len() > 0,
        is_space(rest[0]),
    ensures
        space_from(word + rest, i) == Some(word.len() as int),
    decreases word.len() - i,
{
    if i < word.len() {
        assert((word + rest)[i] == word[i]);
        lemma_first_space(word, rest, i + 1);
    } else {
        assert((word + rest)[i] == rest[0]);
    }
}

proof fn lemma_hex_is_one_word(bytes: Seq<u8>, k: int)
    requires
        0 <= k < hex(bytes).len(),
    ensures
        !is_space(hex(bytes)[k]),
{
}

/// The line that is printed for a file checks against that file, unless the file changes. A name that
/// starts with white space or a star is left out, since the check does not see these; so is `cksum`,
/// whose digest is two words.
pub proof fn lemma_sum_line_checks(m: Machine, s: Screen, a: Algorithm, name: Seq<char>, data: Seq<u8>)
    requires
        a != Algorithm::Crc32,
        name.len() > 0,
        !is_space(name[0]),
        name[0] != '*',
        named(m, name) == Some(data),
        charged(m, data.len() as int).0,
    ensures
        lines_checked(m, s, a, seq![digest_text(a, data) + "  "@ + name], 0, 0) == (
            charged(m, data.len() as int).1,
            printed(s, name + ": OK\n"@),
            Some(0int),
        ),
{
    reveal_strlit("  ");
    let digest = digest_text(a, data);
    let line = digest + "  "@ + name;
    let rest = "  "@ + name;
    assert forall|k: int| 0 <= k < digest.len() implies !is_space(#[trigger] digest[k]) by {
        match a {
            Algorithm::Sha256 => lemma_hex_is_one_word(sha256_digest(data), k),
            Algorithm::Sha1 => lemma_hex_is_one_word(sha1_digest(data), k),
            Algorithm::Sha512 => lemma_hex_is_one_word(sha512_digest(data), k),
            Algorithm::Md5 => lemma_hex_is_one_word(md5_digest(data), k),
            Algorithm::Crc32 => {},
        }
    }
    assert(line =~= digest + rest);
    lemma_first_space(digest, rest, 0);
    assert(line.subrange(0, digest.len() as int) =~= digest);
    let after = line.subrange(digest.len() as int + 1, line.len() as int);
    assert(after =~= seq![' '] + name);
    assert(after.subrange(1, after.len() as int) =~= name);
    assert(trimmed_start(after) == trimmed_start(name));
    assert(trimmed_start(name) == name);
    assert(listed_file(after) == name);
    assert(cut_at_space(line) == Some((digest, after)));
    let n = charged(m, data.len() as int).1;
    let t = printed(s, name + ": OK\n"@);
    assert(lines_checked(n, t, a, seq![line], 0, 1) == (n, t, Some(0int)));
}

} // verus!
