//! The environment: variables, arguments, the socket of the compositor, the outputs.

use vstd::prelude::*;
use vstd::utf8::encode_utf8;

use crate::decimal::{
    ascii, decimal, digit, digit_prefix, is_digit, latin, leading_digits, lemma_leading_digits,
    lemma_value_grows, value,
};
use crate::list::{first, is_first, lemma_first, lemma_found};
use crate::text::{contains, has_text};

verus! {

/// An output is one that a region is for: the text occurs in its name or in its description, or
/// the region is for all outputs.
pub open spec fn output_matches(wanted: Option<Seq<char>>, name: Seq<char>, description: Seq<char>) -> bool {
    match wanted {
        Some(text) => contains(name, text) || contains(description, text),
        None => true,
    }
}

/// The text that a region looks for in outputs.
pub open spec fn wanted_text(output: Option<String>) -> Option<Seq<char>> {
    match output {
        Some(text) => Some(text@),
        None => None,
    }
}

/// Whether an output is one that a region is for.
pub fn is_output_match(wanted: &Option<String>, name: &str, description: &str) -> (r: bool)
    ensures
        r == output_matches(wanted_text(*wanted), name@, description@),
{
    match wanted {
        Some(text) => has_text(name, text.as_str()) || has_text(description, text.as_str()),
        None => true,
    }
}

/// A region for the full name of an output is for that output, and so is one for any part of it.
pub proof fn full_name_matches(name: Seq<char>, description: Seq<char>, from: int, to: int)
    requires
        0 <= from <= to <= name.len(),
    ensures
        output_matches(Some(name.subrange(from, to)), name, description),
        output_matches(Some(name), name, description),
{
    assert(crate::text::occurs_at(name, name.subrange(from, to), from));
    assert(name.subrange(0, name.len() as int) =~= name);
    assert(crate::text::occurs_at(name, name, 0));
}

/// Whether two rows of bytes are the same.
fn same_bytes(a: &[u8], b: &[u8]) -> (r: bool)
    ensures
        r == (a@ == b@),
{
    if a.len() != b.len() {
        return false;
    }
    let mut i: usize = 0;
    while i < a.len()
        invariant
            i <= a.len(),
            a@.len() == b@.len(),
            forall|j: int| 0 <= j < i ==> a@[j] == b@[j],
        decreases a.len() - i,
    {
        if a[i] != b[i] {
            return false;
        }
        i += 1;
    }
    assert(a@ =~= b@);
    true
}

/// `s` begins with `prefix`.
pub open spec fn has_prefix(s: Seq<u8>, prefix: Seq<u8>) -> bool {
    prefix.len() <= s.len() && s.take(prefix.len() as int) == prefix
}

/// Whether `s` begins with `prefix`.
fn begins_with(s: &Vec<u8>, prefix: &[u8]) -> (r: bool)
    ensures
        r == has_prefix(s@, prefix@),
{
    if prefix.len() > s.len() {
        return false;
    }
    let mut i: usize = 0;
    while i < prefix.len()
        invariant
            i <= prefix.len() <= s.len(),
            forall|j: int| 0 <= j < i ==> s@[j] == prefix@[j],
        decreases prefix.len() - i,
    {
        if s[i] != prefix[i] {
            assert(s@.take(prefix@.len() as int)[i as int] != prefix@[i as int]);
            return false;
        }
        i += 1;
    }
    assert(s@.take(prefix@.len() as int) =~= prefix@);
    true
}

/// Whether an entry of the environment begins with a name and `=`.
fn is_entry_of(entry: &Vec<u8>, env: &[u8]) -> (r: bool)
    ensures
        r == has_prefix(entry@, env@.push(61)),
{
    let ghost key = env@.push(61);
    let n: usize = env.len();
    proof {
        if has_prefix(entry@, key) {
            assert(entry@.take(n as int) =~= env@) by {
                assert forall|i: int| 0 <= i < n implies entry@[i] == env@[i] by {
                    assert(entry@.take(key.len() as int)[i] == key[i]);
                }
            }
            assert(entry@.take(key.len() as int)[n as int] == key[n as int]);
        }
    }
    if !begins_with(entry, env) || entry.len() == n {
        return false;
    }
    proof {
        if entry@[n as int] == 61 {
            assert(entry@.take(key.len() as int) =~= key) by {
                assert forall|i: int| 0 <= i < n implies entry@[i] == env@[i] by {
                    assert(entry@.take(n as int)[i] == env@[i]);
                }
            }
        }
    }
    entry[n] == 61
}

/// An entry of the environment is that of a variable: it begins with the name and `=`.
pub open spec fn names(env: Seq<u8>) -> spec_fn(Vec<u8>) -> bool {
    |entry: Vec<u8>| has_prefix(entry@, env.push(61))
}

/// The value of a variable of the environment: what follows the name and `=`, in the first entry
/// that begins with them.
pub fn getenv(environ: &Vec<Vec<u8>>, env: &[u8]) -> (r: Option<Vec<u8>>)
    ensures
        match first(environ@, names(env@)) {
            Some(i) => r is Some && r->0@ == environ@[i]@.skip(env@.len() as int + 1),
            None => r is None,
        },
{
    let mut i: usize = 0;
    while i < environ.len()
        invariant
            i <= environ.len(),
            forall|j: int| 0 <= j < i ==> !names(env@)(#[trigger] environ@[j]),
        decreases environ.len() - i,
    {
        if is_entry_of(&environ[i], env) {
            assert(is_first(environ@, names(env@), i as int));
            proof {
                lemma_first(environ@, names(env@), i as int);
            }
            let mut value: Vec<u8> = Vec::new();
            let len: usize = environ[i].len();
            let mut k: usize = env.len() + 1;
            let ghost entry = environ@[i as int]@;
            let ghost start = env@.len() + 1;
            assert(entry.subrange(start as int, start as int) =~= Seq::<u8>::empty());
            while k < len
                invariant
                    i < environ.len(),
                    len == entry.len(),
                    entry == environ@[i as int]@,
                    start <= k <= entry.len(),
                    value@ == entry.subrange(start as int, k as int),
                decreases entry.len() - k,
            {
                value.push(environ[i][k]);
                assert(entry.subrange(start as int, k + 1) =~= entry.subrange(
                    start as int,
                    k as int,
                ).push(entry[k as int]));
                k += 1;
            }
            assert(entry.subrange(start as int, entry.len() as int) =~= entry.skip(start as int));
            return Some(value);
        }
        i += 1;
    }
    None
}

/// The first entry of a variable gives its value: what follows the `=`. Variables whose names
/// merely begin alike do not matter.
pub proof fn variables_have_their_values(
    environ: Seq<Vec<u8>>,
    env: Seq<u8>,
    i: int,
    value: Seq<u8>,
)
    requires
        0 <= i < environ.len(),
        environ[i]@ == env.push(61) + value,
        forall|j: int| 0 <= j < i ==> !has_prefix((#[trigger] environ[j])@, env.push(61)),
    ensures
        first(environ, names(env)) == Some(i),
        environ[i]@.skip(env.len() as int + 1) == value,
{
    assert(environ[i]@.take(env.len() as int + 1) =~= env.push(61));
    assert(is_first(environ, names(env), i));
    lemma_first(environ, names(env), i);
    assert(environ[i]@.skip(env.len() as int + 1) =~= value);
}

/// Whether the digits that `s` begins with stand for a number of a file descriptor.
pub fn is_rawfd_range(s: &[u8]) -> (r: bool)
    ensures
        r == (value(digit_prefix(latin(s@))) <= i32::MAX),
{
    let ghost chars = latin(s@);
    let mut fd: i32 = 0;
    let mut i: usize = 0;
    while i < s.len()
        invariant
            i <= s.len(),
            chars == latin(s@),
            fd >= 0,
            fd == value(chars.take(i as int)),
            forall|j: int| 0 <= j < i ==> is_digit(#[trigger] chars[j]),
        decreases s.len() - i,
    {
        let x: u8 = s[i];
        assert(chars[i as int] == x as char);
        if x < 48 || x > 57 {
            proof {
                lemma_leading_digits(chars, i as nat);
            }
            return true;
        }
        let next: i64 = fd as i64 * 10 + (x - 48) as i64;
        proof {
            assert(chars.take(i + 1).drop_last() =~= chars.take(i as int));
            assert(digit(chars[i as int]) == x - 48);
            lemma_leading_digits(chars, (i + 1) as nat);
            lemma_value_grows(chars, i + 1, leading_digits(chars) as int);
        }
        if next > 0x7fff_ffff {
            return false;
        }
        fd = next as i32;
        i += 1;
    }
    proof {
        lemma_leading_digits(chars, chars.len());
    }
    true
}

/// The file descriptor that a row of digits stands for; none where there is anything else in it.
pub fn parse_cstr_to_rawfd(s: &[u8]) -> (r: Option<i32>)
    requires
        value(digit_prefix(latin(s@))) <= i32::MAX,
    ensures
        r == (if forall|i: int| 0 <= i < s@.len() ==> is_digit(#[trigger] latin(s@)[i]) {
            Some(value(latin(s@)) as i32)
        } else {
            None
        }),
{
    let ghost chars = latin(s@);
    let mut fd: i32 = 0;
    let mut i: usize = 0;
    while i < s.len()
        invariant
            i <= s.len(),
            chars == latin(s@),
            value(digit_prefix(chars)) <= i32::MAX,
            fd >= 0,
            fd == value(chars.take(i as int)),
            forall|j: int| 0 <= j < i ==> is_digit(#[trigger] chars[j]),
        decreases s.len() - i,
    {
        let x: u8 = s[i];
        assert(chars[i as int] == x as char);
        if x < 48 || x > 57 {
            assert(!is_digit(chars[i as int]));
            return None;
        }
        proof {
            assert(chars.take(i + 1).drop_last() =~= chars.take(i as int));
            assert(digit(chars[i as int]) == x - 48);
            lemma_leading_digits(chars, (i + 1) as nat);
            lemma_value_grows(chars, i + 1, leading_digits(chars) as int);
        }
        fd = fd * 10 + (x - 48) as i32;
        i += 1;
    }
    assert(chars.take(chars.len() as int) =~= chars);
    Some(fd)
}

/// `DecInt::new` and `DecInt::as_bytes` of `rustix`: a number in decimal, as ASCII bytes.
#[verifier::external_body]
fn dec_int(n: u32) -> (r: Vec<u8>)
    ensures
        r@ == ascii(decimal(n as nat)),
{
    rustix::path::DecInt::new(n).as_bytes().to_vec()
}

/// Where to find the compositor.
#[derive(Debug, PartialEq, Eq)]
pub enum SocketTarget {
    /// A connected socket that was passed on.
    Fd(i32),
    /// The path of a socket.
    Path(Vec<u8>),
}

/// The name of the socket of the compositor.
pub open spec fn socket_name(wayland_display: Option<Seq<u8>>) -> Seq<u8> {
    match wayland_display {
        Some(name) => name,
        None => encode_utf8("wayland-0"@),
    }
}

/// The directory of the sockets of a user.
pub open spec fn runtime_dir(xdg_runtime_dir: Option<Seq<u8>>, uid: u32) -> Seq<u8> {
    match xdg_runtime_dir {
        Some(dir) => dir,
        None => encode_utf8("/run/user/"@) + ascii(decimal(uid as nat)),
    }
}

/// A path starts at the root.
pub open spec fn is_full_path(path: Seq<u8>) -> bool {
    path.len() > 0 && path[0] == 47
}

/// Whether the name of the socket of the compositor is looked up in the directory of the sockets
/// of the user.
pub fn needs_runtime_dir(wayland_display: &Option<Vec<u8>>) -> (r: bool)
    ensures
        r == !is_full_path(socket_name(bytes_of(*wayland_display))),
{
    match wayland_display {
        Some(name) => !(name.len() > 0 && name[0] == 47),
        None => {
            let name: Vec<u8> = "wayland-0".as_bytes_vec();
            !(name.len() > 0 && name[0] == 47)
        },
    }
}

/// The path of the socket of the compositor: its name, where that is a full path, or its name in
/// the directory of the sockets of the user.
pub open spec fn socket_path(
    wayland_display: Option<Seq<u8>>,
    xdg_runtime_dir: Option<Seq<u8>>,
    uid: u32,
) -> Seq<u8> {
    let name = socket_name(wayland_display);
    if is_full_path(name) {
        name
    } else {
        runtime_dir(xdg_runtime_dir, uid).push(47) + name
    }
}

/// The bytes of an optional text.
pub open spec fn bytes_of(s: Option<Vec<u8>>) -> Option<Seq<u8>> {
    match s {
        Some(v) => Some(v@),
        None => None,
    }
}

/// The path of the socket of the compositor.
pub fn compositor_path(
    wayland_display: Option<Vec<u8>>,
    xdg_runtime_dir: Option<Vec<u8>>,
    uid: u32,
) -> (r: Vec<u8>)
    ensures
        r@ == socket_path(bytes_of(wayland_display), bytes_of(xdg_runtime_dir), uid),
{
    let in_runtime_dir: bool = needs_runtime_dir(&wayland_display);
    let name: Vec<u8> = match wayland_display {
        Some(name) => name,
        None => "wayland-0".as_bytes_vec(),
    };
    if !in_runtime_dir {
        return name;
    }
    let mut path: Vec<u8> = match xdg_runtime_dir {
        Some(dir) => dir,
        None => {
            let mut dir: Vec<u8> = "/run/user/".as_bytes_vec();
            let mut number: Vec<u8> = dec_int(uid);
            dir.append(&mut number);
            dir
        },
    };
    path.push(47);
    let mut name = name;
    path.append(&mut name);
    path
}

/// Where to find the compositor: a socket that was passed on, if there is one, or its path. There
/// is no answer where the number of the socket that was passed on is not a number.
pub fn socket_target(
    wayland_socket: Option<Vec<u8>>,
    wayland_display: Option<Vec<u8>>,
    xdg_runtime_dir: Option<Vec<u8>>,
    uid: u32,
) -> (r: Option<SocketTarget>)
    requires
        wayland_socket is Some ==> value(digit_prefix(latin(wayland_socket->0@))) <= i32::MAX,
    ensures
        match wayland_socket {
            Some(txt) => if forall|i: int| 0 <= i < txt@.len() ==> is_digit(#[trigger] latin(txt@)[i]) {
                r == Some(SocketTarget::Fd(value(latin(txt@)) as i32))
            } else {
                r is None
            },
            None => {
                &&& r is Some
                &&& r->0 is Path
                &&& r->0->Path_0@ == socket_path(
                    bytes_of(wayland_display),
                    bytes_of(xdg_runtime_dir),
                    uid,
                )
            },
        },
{
    match wayland_socket {
        Some(txt) => match parse_cstr_to_rawfd(txt.as_slice()) {
            Some(fd) => Some(SocketTarget::Fd(fd)),
            None => None,
        },
        None => Some(SocketTarget::Path(compositor_path(wayland_display, xdg_runtime_dir, uid))),
    }
}

/// The path of the configuration file of a user, with a zero byte at the end.
pub open spec fn config_path_bytes(home: Option<Seq<u8>>) -> Seq<u8> {
    (match home {
        Some(dir) => dir,
        None => encode_utf8("."@),
    }) + encode_utf8("/.config/waygaps/config.toml"@).push(0)
}

/// The path of the configuration file of a user, with a zero byte at the end. Without a home
/// directory it is looked for in the current one.
pub fn default_config_path(home: Option<Vec<u8>>) -> (r: Vec<u8>)
    ensures
        r@ == config_path_bytes(bytes_of(home)),
{
    let mut path: Vec<u8> = match home {
        Some(dir) => dir,
        None => ".".as_bytes_vec(),
    };
    let mut suffix: Vec<u8> = "/.config/waygaps/config.toml".as_bytes_vec();
    suffix.push(0);
    path.append(&mut suffix);
    path
}

/// The path of the configuration file, with a zero byte at the end: the one that was given, or
/// else that of the user.
pub fn config_path(given: Option<Vec<u8>>, home: Option<Vec<u8>>) -> (r: Vec<u8>)
    ensures
        given is Some ==> r@ == given->0@.push(0),
        given is None ==> r@ == config_path_bytes(bytes_of(home)),
{
    match given {
        Some(path) => {
            let mut path = path;
            path.push(0);
            path
        },
        None => default_config_path(home),
    }
}

/// How to read a configuration file.
#[derive(Clone, Copy, Debug, PartialEq, Eq, Structural)]
pub enum ReadPlan {
    /// Map it into memory.
    Mmap,
    /// Read it into a buffer, in one go.
    Buffer,
}

/// The size of the buffer for configuration files.
pub const CONFIG_BUFFER: usize = 4096;

/// How to read a configuration file of `len` bytes.
pub fn read_plan(len: usize) -> (r: ReadPlan)
    ensures
        r == (if len > CONFIG_BUFFER {
            ReadPlan::Mmap
        } else {
            ReadPlan::Buffer
        }),
        r == ReadPlan::Buffer <==> len <= 4096,
{
    if len > CONFIG_BUFFER {
        ReadPlan::Mmap
    } else {
        ReadPlan::Buffer
    }
}

/// What the arguments of the program ask for.
#[derive(Clone, Copy, Debug)]
pub struct Args {
    /// The place of the path of the configuration file among the arguments.
    pub config_path: Option<usize>,
    /// Show where the regions are.
    pub preview: bool,
    /// Print an example of a configuration file.
    pub print_example_config: bool,
}

/// What is wrong with the arguments of the program.
#[derive(Clone, Copy, Debug, PartialEq, Eq, Structural)]
pub enum ArgError {
    /// No path follows the flag for the configuration file.
    MissingPath,
    /// The argument at this place is unknown.
    Unknown(usize),
}

/// An argument is a flag, in its short or in its long form.
pub open spec fn is_flag(arg: Seq<u8>, short: Seq<char>, long: Seq<char>) -> bool {
    arg == encode_utf8(short) || arg == encode_utf8(long)
}

/// What the arguments from place `at` on ask for, after what came before them.
pub open spec fn args_from(args: Seq<Vec<u8>>, at: int, so_far: Args) -> Result<Args, ArgError>
    decreases args.len() - at,
{
    if at >= args.len() || at < 0 {
        Ok(so_far)
    } else if is_flag(args[at]@, "-p"@, "--preview"@) {
        args_from(args, at + 1, Args { preview: true, ..so_far })
    } else if is_flag(args[at]@, "-c"@, "--config"@) {
        if at + 1 < args.len() {
            args_from(args, at + 2, Args { config_path: Some((at + 1) as usize), ..so_far })
        } else {
            Err(ArgError::MissingPath)
        }
    } else if args[at]@ == encode_utf8("--print-example-config"@) {
        args_from(args, at + 1, Args { print_example_config: true, ..so_far })
    } else {
        Err(ArgError::Unknown(at as usize))
    }
}

/// What the arguments of the program, after its name, ask for.
pub fn parse_args(args: &Vec<Vec<u8>>) -> (r: Result<Args, ArgError>)
    ensures
        r == args_from(args@, 0, no_args()),
{
    let mut parsed = Args { config_path: None, preview: false, print_example_config: false };
    let ghost none = parsed;
    let mut at: usize = 0;
    while at < args.len()
        invariant
            at <= args.len(),
            none == (Args { config_path: None, preview: false, print_example_config: false }),
            args_from(args@, 0, none) == args_from(args@, at as int, parsed),
        decreases args.len() - at,
    {
        let arg: &[u8] = args[at].as_slice();
        if same_bytes(arg, "-p".as_bytes()) || same_bytes(arg, "--preview".as_bytes()) {
            parsed.preview = true;
            at += 1;
        } else if same_bytes(arg, "-c".as_bytes()) || same_bytes(arg, "--config".as_bytes()) {
            if args.len() - at < 2 {
                return Err(ArgError::MissingPath);
            }
            parsed.config_path = Some(at + 1);
            at += 2;
        } else if same_bytes(arg, "--print-example-config".as_bytes()) {
            parsed.print_example_config = true;
            at += 1;
        } else {
            return Err(ArgError::Unknown(at));
        }
    }
    Ok(parsed)
}

/// No flags have been read yet.
pub open spec fn no_args() -> Args {
    Args { config_path: None, preview: false, print_example_config: false }
}

/// Two arguments are forms of one flag.
pub open spec fn same_flag(a: Seq<u8>, b: Seq<u8>) -> bool {
    ||| is_flag(a, "-p"@, "--preview"@) && is_flag(b, "-p"@, "--preview"@)
    ||| is_flag(a, "-c"@, "--config"@) && is_flag(b, "-c"@, "--config"@)
}

/// Reading the arguments from place `at` on, the one at place `k` is read as a flag: it is not
/// the path that belongs to the one before it.
pub open spec fn reads_at(args: Seq<Vec<u8>>, at: int, k: int) -> bool
    decreases args.len() + 1 - at,
{
    if at >= args.len() || at < 0 {
        false
    } else if at == k {
        true
    } else if is_flag(args[at]@, "-c"@, "--config"@) {
        reads_at(args, at + 2, k)
    } else {
        reads_at(args, at + 1, k)
    }
}

/// The argument at place `k` is read as the flag for the preview.
pub open spec fn asks_preview(args: Seq<Vec<u8>>, at: int, k: int) -> bool {
    reads_at(args, at, k) && is_flag(args[k]@, "-p"@, "--preview"@)
}

/// The argument at place `k` is read as the flag for the configuration file.
pub open spec fn asks_config(args: Seq<Vec<u8>>, at: int, k: int) -> bool {
    reads_at(args, at, k) && is_flag(args[k]@, "-c"@, "--config"@)
}

/// The flag for the preview is none for the configuration file.
proof fn lemma_flags_differ(arg: Seq<u8>)
    ensures
        !(is_flag(arg, "-p"@, "--preview"@) && is_flag(arg, "-c"@, "--config"@)),
{
    vstd::utf8::encode_utf8_decode_utf8("-p"@);
    vstd::utf8::encode_utf8_decode_utf8("--preview"@);
    vstd::utf8::encode_utf8_decode_utf8("-c"@);
    vstd::utf8::encode_utf8_decode_utf8("--config"@);
    reveal_strlit("-p");
    reveal_strlit("--preview");
    reveal_strlit("-c");
    reveal_strlit("--config");
    assert("-p"@.len() == 2 && "-p"@[1] == 'p' && "--preview"@.len() == 9);
    assert("-c"@.len() == 2 && "-c"@[1] == 'c' && "--config"@.len() == 8);
}

/// The short and the long form of a flag ask for the same, at whatever place it stands.
pub proof fn flag_forms_agree(args: Seq<Vec<u8>>, k: int, other: Vec<u8>)
    requires
        0 <= k < args.len(),
        same_flag(args[k]@, other@),
    ensures
        args_from(args.update(k, other), 0, no_args()) == args_from(args, 0, no_args()),
{
    lemma_flag_forms_agree(args, k, other, 0, no_args());
}

proof fn lemma_flag_forms_agree(args: Seq<Vec<u8>>, k: int, other: Vec<u8>, at: int, so_far: Args)
    requires
        0 <= k < args.len(),
        0 <= at,
        same_flag(args[k]@, other@),
    ensures
        args_from(args.update(k, other), at, so_far) == args_from(args, at, so_far),
    decreases args.len() + 1 - at,
{
    if at < args.len() {
        lemma_flags_differ(args[k]@);
        lemma_flags_differ(other@);
        lemma_flag_forms_agree(args, k, other, at + 1, Args { preview: true, ..so_far });
        lemma_flag_forms_agree(args, k, other, at + 1, Args { print_example_config: true, ..so_far });
        lemma_flag_forms_agree(
            args,
            k,
            other,
            at + 2,
            Args { config_path: Some((at + 1) as usize), ..so_far },
        );
    }
}

/// Where the arguments can be read, the preview is shown if and only if its flag is among them, and
/// a path is given if and only if the flag for it is; the path is an argument that follows such a
/// flag.
pub proof fn flags_decide(args: Seq<Vec<u8>>)
    requires
        args_from(args, 0, no_args()) is Ok,
        args.len() <= usize::MAX,
    ensures
        ({
            let asked = args_from(args, 0, no_args())->Ok_0;
            &&& asked.preview <==> exists|k: int| #[trigger] asks_preview(args, 0, k)
            &&& asked.config_path is Some <==> exists|k: int| #[trigger] asks_config(args, 0, k)
            &&& asked.config_path matches Some(i) ==> i < args.len() && asks_config(args, 0, i - 1)
        }),
{
    lemma_flags_decide(args, 0, no_args());
}

proof fn lemma_flags_decide(args: Seq<Vec<u8>>, at: int, so_far: Args)
    requires
        0 <= at,
        args_from(args, at, so_far) is Ok,
        args.len() <= usize::MAX,
    ensures
        ({
            let asked = args_from(args, at, so_far)->Ok_0;
            &&& asked.preview <==> so_far.preview || exists|k: int| #[trigger]
                asks_preview(args, at, k)
            &&& asked.config_path is Some <==> so_far.config_path is Some || exists|k: int|
                #[trigger] asks_config(args, at, k)
            &&& asked.config_path != so_far.config_path ==> asked.config_path is Some
                && asked.config_path->0 < args.len() && asks_config(
                args,
                at,
                asked.config_path->0 - 1,
            )
        }),
    decreases args.len() + 1 - at,
{
    if at < args.len() {
        lemma_flags_differ(args[at]@);
        let is_preview = is_flag(args[at]@, "-p"@, "--preview"@);
        let is_config = is_flag(args[at]@, "-c"@, "--config"@);
        let next = if is_config {
            at + 2
        } else {
            at + 1
        };
        let then = if is_preview {
            Args { preview: true, ..so_far }
        } else if is_config {
            Args { config_path: Some((at + 1) as usize), ..so_far }
        } else {
            Args { print_example_config: true, ..so_far }
        };
        lemma_flags_decide(args, next, then);
        assert forall|k: int| #[trigger] asks_preview(args, at, k) <==> (k == at && is_preview
            || asks_preview(args, next, k)) by {
            lemma_reads_forward(args, next, k);
        }
        assert forall|k: int| #[trigger] asks_config(args, at, k) <==> (k == at && is_config
            || asks_config(args, next, k)) by {
            lemma_reads_forward(args, next, k);
        }
        if is_preview {
            assert(asks_preview(args, at, at));
        }
        if is_config {
            assert(asks_config(args, at, at));
        }
        let asked = args_from(args, at, so_far)->Ok_0;
        assert forall|k: int| #[trigger] asks_preview(args, next, k) implies asks_preview(
            args,
            at,
            k,
        ) by {}
        assert forall|k: int| #[trigger] asks_config(args, next, k) implies asks_config(
            args,
            at,
            k,
        ) by {}
        if asked.config_path != so_far.config_path && asked.config_path == then.config_path {
            assert(asked.config_path->0 - 1 == at);
        }
    }
}

proof fn lemma_reads_forward(args: Seq<Vec<u8>>, at: int, k: int)
    ensures
        reads_at(args, at, k) ==> at <= k,
    decreases args.len() + 1 - at,
{
    if 0 <= at < args.len() && at != k {
        lemma_reads_forward(args, at + 1, k);
        lemma_reads_forward(args, at + 2, k);
    }
}

/// What to do about an event on a file descriptor that the program waits on.
#[derive(Clone, Copy, Debug, PartialEq, Eq, Structural)]
pub enum PollAction {
    /// The file descriptor failed.
    ReportError,
    /// The compositor has sent something.
    Receive,
    /// Nothing waits on such a file descriptor.
    ReportUnexpected,
}

/// The mark of the connection to the compositor.
pub const EPOLL_EV_WAYLAND: u64 = 0;

/// What to do about an event with the mark `data`.
pub fn poll_action(failed: bool, data: u64) -> (r: PollAction)
    ensures
        r == (if failed {
            PollAction::ReportError
        } else if data == EPOLL_EV_WAYLAND {
            PollAction::Receive
        } else {
            PollAction::ReportUnexpected
        }),
{
    if failed {
        PollAction::ReportError
    } else if data == EPOLL_EV_WAYLAND {
        PollAction::Receive
    } else {
        PollAction::ReportUnexpected
    }
}

/// What the program has done last.
#[derive(Clone, Copy, Debug, PartialEq, Eq, Structural)]
pub enum Last {
    /// It has made all ready to wait for events.
    Started,
    /// Waiting has brought events.
    Ready,
    /// It has acted upon all events that there were.
    Handled,
    /// A signal has come while it waited.
    Interrupted,
    /// There was nothing to wait for.
    WouldBlock,
    /// Waiting has failed otherwise.
    Failed,
}

/// What the program does next.
#[derive(Clone, Copy, Debug, PartialEq, Eq, Structural)]
pub enum Step {
    /// Send all requests, and wait for events.
    Wait,
    /// Act upon the events that there are.
    Handle,
    /// End with this status.
    Exit(u8),
    /// Fail: the program cannot wait for events.
    Fail,
}

/// What the program does next, where `exit` says that it has to end: events that have come are
/// acted upon before that.
pub open spec fn step_after(exit: bool, last: Last) -> Step {
    match last {
        Last::Ready => Step::Handle,
        Last::Failed => Step::Fail,
        Last::Started | Last::Handled | Last::Interrupted | Last::WouldBlock => if exit {
            Step::Exit(0)
        } else {
            Step::Wait
        },
    }
}

/// What the program does next, where `exit` says that it has to end.
pub fn next_step(exit: bool, last: Last) -> (r: Step)
    ensures
        r == step_after(exit, last),
{
    match last {
        Last::Ready => Step::Handle,
        Last::Failed => Step::Fail,
        _ => if exit {
            Step::Exit(0)
        } else {
            Step::Wait
        },
    }
}

/// The first entry of the environment that is a name, `=` and a value gives that value, whatever
/// comes after it; and where nothing is found, no entry is of that form.
pub proof fn variables_are_found(
    environ: Seq<Vec<u8>>,
    env: Seq<u8>,
    i: int,
    value: Seq<u8>,
)
    requires
        0 <= i < environ.len(),
        environ[i]@ == env + seq![61u8] + value,
    ensures
        ({
            let found = first(environ, names(env));
            &&& found is Some
            &&& 0 <= found->0 <= i
            &&& environ[found->0]@ == env + seq![61u8] + environ[found->0]@.skip(
                env.len() as int + 1,
            )
            &&& forall|j: int, other: Seq<u8>|
                0 <= j < found->0 ==> (#[trigger] environ[j])@ != #[trigger] (env + seq![61u8]
                    + other)
        }),
{
    let key = env + seq![61u8];
    assert(key =~= env.push(61));
    lemma_found(environ, names(env));
    assert((key + value).take(key.len() as int) =~= key);
    assert(names(env)(environ[i]));
    let found = first(environ, names(env))->0;
    let entry = environ[found]@;
    assert(entry =~= key + entry.skip(key.len() as int)) by {
        assert forall|n: int| 0 <= n < key.len() implies entry[n] == key[n] by {
            assert(entry.take(key.len() as int)[n] == entry[n]);
        }
    }
    assert forall|j: int, other: Seq<u8>| 0 <= j < found implies (#[trigger] environ[j])@
        != #[trigger] (env + seq![61u8] + other) by {
        if environ[j]@ == key + other {
            assert((key + other).take(key.len() as int) =~= key);
            assert(names(env)(environ[j]));
        }
    }
}

/// The socket of the compositor is at its name, where that begins with `/`, and else under that name
/// in the directory of the user's sockets, which is named by the user's number where nothing else
/// names it.
pub proof fn sockets_are_where_they_are_named(
    name: Seq<u8>,
    dir: Seq<u8>,
    other: Option<Seq<u8>>,
    uid: u32,
)
    ensures
        name.len() > 0 && name[0] == 47 ==> socket_path(Some(name), other, uid) == name,
        name.len() == 0 || name[0] != 47 ==> socket_path(Some(name), Some(dir), uid) == dir
            + seq![47u8] + name,
        name.len() == 0 || name[0] != 47 ==> socket_path(Some(name), None, uid) == encode_utf8(
            "/run/user/"@,
        ) + ascii(decimal(uid as nat)) + seq![47u8] + name,
        socket_path(None, other, uid) == socket_path(Some(encode_utf8("wayland-0"@)), other, uid),
{
    if name.len() == 0 || name[0] != 47 {
        assert(socket_path(Some(name), Some(dir), uid) =~= dir + seq![47u8] + name);
        let own = encode_utf8("/run/user/"@) + ascii(decimal(uid as nat));
        assert(socket_path(Some(name), None, uid) =~= own + seq![47u8] + name);
    }
}

/// The configuration file of a user is under the home directory, or else under the current one.
pub proof fn config_file_is_under_home(home: Seq<u8>)
    ensures
        config_path_bytes(Some(home)) == home + encode_utf8("/.config/waygaps/config.toml"@)
            + seq![0u8],
        config_path_bytes(None) == config_path_bytes(Some(encode_utf8("."@))),
{
    assert(config_path_bytes(Some(home)) =~= home + encode_utf8("/.config/waygaps/config.toml"@)
        + seq![0u8]);
}

/// An output is one that a region is for where the region names none, and else exactly where the
/// text stands somewhere in the name of the output or in its description.
pub proof fn outputs_match_by_parts(
    text: Seq<char>,
    front: Seq<char>,
    back: Seq<char>,
    other: Seq<char>,
    name: Seq<char>,
    description: Seq<char>,
    output: Option<String>,
)
    ensures
        output_matches(None, name, description),
        output_matches(Some(text), front + text + back, other),
        output_matches(Some(text), other, front + text + back),
        output_matches(Some(text), name, description) <==> contains(name, text) || contains(
            description,
            text,
        ),
        output is None <==> wanted_text(output) is None,
        output is Some ==> wanted_text(output) == Some(output->0@),
{
    crate::text::parts_are_contained(front, text, back);
}

/// What arguments ask for, one more argument at a time. The flag for the preview, a path with its
/// flag, and the flag for an example each add what they ask for to what the arguments before them
/// do; a later path takes the place of an earlier one; a flag for a path with nothing after it, and
/// any other argument, are wrong.
pub proof fn each_argument_adds_its_own(
    args: Seq<Vec<u8>>,
    arg: Vec<u8>,
    path: Vec<u8>,
    asked: Args,
)
    requires
        args_from(args, 0, no_args()) == Ok::<Args, ArgError>(asked),
        args.len() + 2 <= usize::MAX,
    ensures
        ({
            let preview = arg@ == encode_utf8("-p"@) || arg@ == encode_utf8("--preview"@);
            let config = arg@ == encode_utf8("-c"@) || arg@ == encode_utf8("--config"@);
            let example = arg@ == encode_utf8("--print-example-config"@);
            let one = args_from(args.push(arg), 0, no_args());
            let two = args_from(args.push(arg).push(path), 0, no_args());
            &&& preview ==> one == Ok::<Args, ArgError>(Args { preview: true, ..asked })
            &&& example ==> one == Ok::<Args, ArgError>(Args { print_example_config: true, ..asked })
            &&& config ==> one == Err::<Args, ArgError>(ArgError::MissingPath)
            &&& config ==> two == Ok::<Args, ArgError>(
                Args { config_path: Some((args.len() + 1) as usize), ..asked },
            )
            &&& !preview && !config && !example ==> one == Err::<Args, ArgError>(
                ArgError::Unknown(args.len() as usize),
            )
        }),
        args_from(Seq::<Vec<u8>>::empty(), 0, no_args()) == Ok::<Args, ArgError>(
            Args { config_path: None, preview: false, print_example_config: false },
        ),
{
    reveal_with_fuel(args_from, 3);
    lemma_flags_differ(arg@);
    lemma_example_differs(arg@);
    let n = args.len() as int;
    let one = args.push(arg);
    let two = args.push(arg).push(path);
    lemma_args_go_on(args, one, 0, no_args(), asked);
    lemma_args_go_on(args, two, 0, no_args(), asked);
    assert(one[n] == arg && two[n] == arg);
}

/// Arguments that are wrong stay so, whatever follows them, unless it is a path that was missing.
pub proof fn wrong_arguments_stay_wrong(args: Seq<Vec<u8>>, more: Seq<Vec<u8>>, at: usize)
    requires
        args_from(args, 0, no_args()) == Err::<Args, ArgError>(ArgError::Unknown(at)),
        args.len() + more.len() <= usize::MAX,
    ensures
        args_from(args + more, 0, no_args()) == Err::<Args, ArgError>(ArgError::Unknown(at)),
        at < args.len(),
{
    lemma_args_stay_wrong(args, args + more, 0, no_args(), at);
}

proof fn lemma_args_stay_wrong(
    args: Seq<Vec<u8>>,
    longer: Seq<Vec<u8>>,
    at: int,
    so_far: Args,
    wrong: usize,
)
    requires
        0 <= at,
        args.len() <= longer.len() <= usize::MAX,
        forall|i: int| 0 <= i < args.len() ==> args[i] == longer[i],
        args_from(args, at, so_far) == Err::<Args, ArgError>(ArgError::Unknown(wrong)),
    ensures
        args_from(longer, at, so_far) == Err::<Args, ArgError>(ArgError::Unknown(wrong)),
        wrong < args.len(),
    decreases args.len() + 1 - at,
{
    if at < args.len() {
        assert(args[at] == longer[at]);
        if is_flag(args[at]@, "-p"@, "--preview"@) {
            let then = Args { preview: true, ..so_far };
            lemma_args_stay_wrong(args, longer, at + 1, then, wrong);
        } else if is_flag(args[at]@, "-c"@, "--config"@) {
            let then = Args { config_path: Some((at + 1) as usize), ..so_far };
            lemma_args_stay_wrong(args, longer, at + 2, then, wrong);
        } else if args[at]@ == encode_utf8("--print-example-config"@) {
            let then = Args { print_example_config: true, ..so_far };
            lemma_args_stay_wrong(args, longer, at + 1, then, wrong);
        }
    }
}

proof fn lemma_example_differs(arg: Seq<u8>)
    ensures
        arg == encode_utf8("--print-example-config"@) ==> !is_flag(arg, "-p"@, "--preview"@)
            && !is_flag(arg, "-c"@, "--config"@),
{
    vstd::utf8::encode_utf8_decode_utf8("-p"@);
    vstd::utf8::encode_utf8_decode_utf8("--preview"@);
    vstd::utf8::encode_utf8_decode_utf8("-c"@);
    vstd::utf8::encode_utf8_decode_utf8("--config"@);
    vstd::utf8::encode_utf8_decode_utf8("--print-example-config"@);
    reveal_strlit("-p");
    reveal_strlit("--preview");
    reveal_strlit("-c");
    reveal_strlit("--config");
    reveal_strlit("--print-example-config");
    assert("-p"@.len() == 2 && "--preview"@.len() == 9 && "-c"@.len() == 2);
    assert("--config"@.len() == 8 && "--print-example-config"@.len() == 22);
}

/// Arguments that can be read are read the same way where more follow them.
proof fn lemma_args_go_on(
    args: Seq<Vec<u8>>,
    longer: Seq<Vec<u8>>,
    at: int,
    so_far: Args,
    asked: Args,
)
    requires
        0 <= at <= args.len(),
        args.len() <= longer.len() <= usize::MAX,
        forall|i: int| 0 <= i < args.len() ==> args[i] == longer[i],
        args_from(args, at, so_far) == Ok::<Args, ArgError>(asked),
    ensures
        args_from(longer, at, so_far) == args_from(longer, args.len() as int, asked),
    decreases args.len() + 1 - at,
{
    if at < args.len() {
        assert(args[at] == longer[at]);
        if is_flag(args[at]@, "-p"@, "--preview"@) {
            let then = Args { preview: true, ..so_far };
            lemma_args_go_on(args, longer, at + 1, then, asked);
        } else if is_flag(args[at]@, "-c"@, "--config"@) {
            let then = Args { config_path: Some((at + 1) as usize), ..so_far };
            lemma_args_go_on(args, longer, at + 2, then, asked);
        } else {
            let then = Args { print_example_config: true, ..so_far };
            lemma_args_go_on(args, longer, at + 1, then, asked);
        }
    }
}

} // verus!
