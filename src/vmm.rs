//! Configuration of a VM and the command line of the VMM process that runs it.
use vstd::prelude::*;
use crate::label::names;

verus! {

/// Relies on std's `std::io::Error`, carried opaque in the errors of a VM.
#[verifier::external_type_specification]
#[verifier::external_body]
pub struct ExIoError(std::io::Error);

/// Relies on std's `std::string::FromUtf8Error`, carried opaque in the
/// errors of a VM.
#[verifier::external_type_specification]
#[verifier::external_body]
pub struct ExFromUtf8Error(std::string::FromUtf8Error);

/// Relies on std's `std::path::PathBuf`, carried opaque in an app's
/// configuration.
#[verifier::external_type_specification]
#[verifier::external_body]
pub struct ExPathBuf(std::path::PathBuf);

/// Why a VM could not be launched or could not serve a request.
#[derive(Debug)]
pub enum Error {
    ProcessSpawn(std::io::Error),
    VmWrite(std::io::Error),
    VmRead(std::io::Error),
    SyscallError(std::io::Error),
    KernelNotExist,
    RootfsNotExist,
    AppfsNotExist,
    LoadDirNotExist,
    NotString(std::string::FromUtf8Error),
}

/// Whether each storage role of a VM is opened with O_DIRECT.
#[derive(Clone, Copy, Debug, PartialEq, Eq, Structural)]
pub struct OdirectOption {
    pub base: bool,
    pub diff: bool,
    pub rootfs: bool,
    pub appfs: bool,
}

/// The file systems and snapshots of an app.
#[derive(Debug)]
pub struct VmAppConfig {
    pub rootfs: String,
    pub appfs: String,
    pub load_dir: Vec<std::path::PathBuf>,
    pub dump_dir: Option<std::path::PathBuf>,
}

/// What a function's VM is made of. An empty `appfs` means none.
pub struct FunctionConfig {
    pub name: String,
    /// Memory in MiB.
    pub memory: usize,
    pub vcpus: usize,
    pub kernel: String,
    pub runtimefs: String,
    pub appfs: String,
    /// A snapshot to resume from.
    pub load_dir: Option<String>,
    /// Where to write a snapshot.
    pub dump_dir: Option<String>,
    /// Kernel arguments.
    pub cmdline: Option<String>,
    pub dump_ws: bool,
    pub load_ws: bool,
    pub copy_base: bool,
    pub copy_diff: bool,
}

/// The character of a decimal digit.
pub open spec fn digit_char(d: int) -> char {
    seq!['0', '1', '2', '3', '4', '5', '6', '7', '8', '9'][d]
}

/// The decimal numeral of `n`, without leading zeros.
pub open spec fn decimal(n: nat) -> Seq<char>
    decreases n,
{
    if n < 10 {
        seq![digit_char(n as int)]
    } else {
        decimal(n / 10).push(digit_char((n % 10) as int))
    }
}

/// The index of the first '/' of `s`, or its length if it has none.
pub open spec fn slash_index(s: Seq<char>) -> int
    decreases s.len(),
{
    if s.len() == 0 {
        0
    } else if s[0] == '/' {
        0
    } else {
        1 + slash_index(s.drop_first())
    }
}

/// The first '/'-separated field of `s`.
pub open spec fn first_field(s: Seq<char>) -> Seq<char> {
    s.subrange(0, slash_index(s))
}

/// The second '/'-separated field of `s`, which holds a '/'.
pub open spec fn second_field(s: Seq<char>) -> Seq<char> {
    first_field(s.subrange(slash_index(s) + 1, s.len() as int))
}

/// `flag` followed by `value`.
pub open spec fn pair(flag: Seq<char>, value: Seq<char>) -> Seq<Seq<char>> {
    seq![flag, value]
}

/// `flag` and the value, if there is one.
pub open spec fn opt_pair(flag: Seq<char>, value: Option<String>) -> Seq<Seq<char>> {
    match value {
        Some(v) => pair(flag, v@),
        None => Seq::empty(),
    }
}

/// `flag` if `on`.
pub open spec fn flag_if(on: bool, flag: Seq<char>) -> Seq<Seq<char>> {
    if on {
        seq![flag]
    } else {
        Seq::empty()
    }
}

/// The arguments that name the network device of `net`, "<tap>/<mac>".
pub open spec fn network_args(net: Option<Seq<char>>) -> Seq<Seq<char>> {
    match net {
        Some(s) => pair("--tap_name"@, first_field(s)) + pair("--mac"@, second_field(s)),
        None => Seq::empty(),
    }
}

/// The O_DIRECT arguments: one for a base opened with it, one for each other
/// role opened without it.
pub open spec fn odirect_args(o: Option<OdirectOption>) -> Seq<Seq<char>> {
    match o {
        Some(o) => flag_if(o.base, "--odirect_base"@) + flag_if(!o.diff, "--no_odirect_diff"@)
            + flag_if(!o.rootfs, "--no_odirect_root"@) + flag_if(!o.appfs, "--no_odirect_app"@),
        None => Seq::empty(),
    }
}

/// The arguments that every VMM command line holds.
pub open spec fn required_args(id: Seq<char>, c: FunctionConfig, cid: u32) -> Seq<Seq<char>> {
    pair("--id"@, id) + pair("--kernel"@, c.kernel@) + pair("--mem_size"@, decimal(c.memory as nat))
        + pair("--vcpu_count"@, decimal(c.vcpus as nat)) + pair("--rootfs"@, c.runtimefs@)
        + pair("--cid"@, decimal(cid as nat))
}

/// The arguments for the paths of a function's configuration that may be
/// absent.
pub open spec fn storage_args(c: FunctionConfig) -> Seq<Seq<char>> {
    (if c.appfs@.len() > 0 {
        pair("--appfs"@, c.appfs@)
    } else {
        Seq::empty()
    }) + opt_pair("--load_from"@, c.load_dir) + opt_pair("--dump_to"@, c.dump_dir) + opt_pair(
        "--kernel_args"@,
        c.cmdline,
    )
}

/// The arguments for the snapshot switches of a function's configuration.
pub open spec fn switch_args(c: FunctionConfig) -> Seq<Seq<char>> {
    flag_if(c.dump_ws, "--dump_ws"@) + flag_if(c.load_ws, "--load_ws"@) + flag_if(
        c.copy_base,
        "--copy_base"@,
    ) + flag_if(c.copy_diff, "--copy_diff"@)
}

/// The command line of the VMM process, after the program's name.
pub open spec fn vmm_args_spec(
    id: Seq<char>,
    c: FunctionConfig,
    cid: u32,
    net: Option<Seq<char>>,
    odirect: Option<OdirectOption>,
) -> Seq<Seq<char>> {
    required_args(id, c, cid) + storage_args(c) + switch_args(c) + network_args(net) + odirect_args(odirect)
}

/// The one-character string of the decimal digit `d`.
fn digit_str(d: usize) -> (r: &'static str)
    requires
        d < 10,
    ensures
        r@ == seq![digit_char(d as int)],
{
    if d == 0 {
        proof {
            reveal_strlit("0");
        }
        assert("0"@ =~= seq![digit_char(d as int)]);
        "0"
    } else if d == 1 {
        proof {
            reveal_strlit("1");
        }
        assert("1"@ =~= seq![digit_char(d as int)]);
        "1"
    } else if d == 2 {
        proof {
            reveal_strlit("2");
        }
        assert("2"@ =~= seq![digit_char(d as int)]);
        "2"
    } else if d == 3 {
        proof {
            reveal_strlit("3");
        }
        assert("3"@ =~= seq![digit_char(d as int)]);
        "3"
    } else if d == 4 {
        proof {
            reveal_strlit("4");
        }
        assert("4"@ =~= seq![digit_char(d as int)]);
        "4"
    } else if d == 5 {
        proof {
            reveal_strlit("5");
        }
        assert("5"@ =~= seq![digit_char(d as int)]);
        "5"
    } else if d == 6 {
        proof {
            reveal_strlit("6");
        }
        assert("6"@ =~= seq![digit_char(d as int)]);
        "6"
    } else if d == 7 {
        proof {
            reveal_strlit("7");
        }
        assert("7"@ =~= seq![digit_char(d as int)]);
        "7"
    } else if d == 8 {
        proof {
            reveal_strlit("8");
        }
        assert("8"@ =~= seq![digit_char(d as int)]);
        "8"
    } else {
        proof {
            reveal_strlit("9");
        }
        assert("9"@ =~= seq![digit_char(d as int)]);
        "9"
    }
}

/// The decimal numeral of `n`.
pub fn decimal_string(n: usize) -> (r: String)
    ensures
        r@ == decimal(n as nat),
    decreases n,
{
    if n < 10 {
        digit_str(n).to_owned()
    } else {
        let head = decimal_string(n / 10);
        head.concat(digit_str(n % 10))
    }
}

proof fn lemma_slash_index(s: Seq<char>, i: int)
    requires
        0 <= i <= s.len(),
        i < s.len() ==> s[i] == '/',
        forall|k: int| 0 <= k < i ==> s[k] != '/',
    ensures
        slash_index(s) == i,
    decreases s.len(),
{
    if s.len() > 0 && i > 0 {
        lemma_slash_index(s.drop_first(), i - 1);
    }
}

proof fn lemma_slash_index_bounds(s: Seq<char>)
    ensures
        0 <= slash_index(s) <= s.len(),
        slash_index(s) < s.len() <==> s.contains('/'),
    decreases s.len(),
{
    if s.len() > 0 {
        lemma_slash_index_bounds(s.drop_first());
        if s[0] != '/' && s.drop_first().contains('/') {
            let k = choose|k: int| 0 <= k < s.drop_first().len() && s.drop_first()[k] == '/';
            assert(s[k + 1] == '/');
        }
        if s[0] != '/' && s.contains('/') {
            let k = choose|k: int| 0 <= k < s.len() && s[k] == '/';
            assert(s.drop_first()[k - 1] == '/');
        }
    }
}

/// The index of the first '/' of `s`, or its length if it has none.
fn slash_position(s: &str) -> (r: usize)
    ensures
        r == slash_index(s@),
{
    let n = s.unicode_len();
    let mut i: usize = 0;
    while i < n
        invariant
            n == s@.len(),
            i <= n,
            forall|k: int| 0 <= k < i ==> s@[k] != '/',
        decreases n - i,
    {
        if s.get_char(i) == '/' {
            proof {
                lemma_slash_index(s@, i as int);
            }
            return i;
        }
        i = i + 1;
    }
    proof {
        lemma_slash_index(s@, i as int);
    }
    i
}

/// The two leading '/'-separated fields of `s`.
fn split_network(s: &str) -> (r: (&str, &str))
    requires
        s@.contains('/'),
    ensures
        r.0@ == first_field(s@),
        r.1@ == second_field(s@),
{
    proof {
        lemma_slash_index_bounds(s@);
    }
    let i = slash_position(s);
    let n = s.unicode_len();
    let tap = s.substring_char(0, i);
    let rest = s.substring_char(i + 1, n);
    proof {
        lemma_slash_index_bounds(rest@);
    }
    let j = slash_position(rest);
    let mac = rest.substring_char(0, j);
    (tap, mac)
}

/// Appends a copy of `s` to `v`.
fn push_arg(v: &mut Vec<String>, s: &str)
    ensures
        names(final(v)@) == names(old(v)@).push(s@),
{
    v.push(s.to_owned());
    assert(names(v@) =~= names(old(v)@).push(s@));
}

/// Appends `flag` and `value` to `v`.
fn push_pair(v: &mut Vec<String>, flag: &str, value: &str)
    ensures
        names(final(v)@) == names(old(v)@) + pair(flag@, value@),
{
    push_arg(v, flag);
    push_arg(v, value);
    assert(names(old(v)@).push(flag@).push(value@) =~= names(old(v)@) + pair(flag@, value@));
}

/// Appends `flag` and the value to `v`, if there is a value.
fn push_opt_pair(v: &mut Vec<String>, flag: &str, value: &Option<String>)
    ensures
        names(final(v)@) == names(old(v)@) + opt_pair(flag@, *value),
{
    match value {
        Some(s) => push_pair(v, flag, s.as_str()),
        None => {
            assert(names(v@) =~= names(v@) + Seq::<Seq<char>>::empty());
        },
    }
}

/// Appends `flag` to `v` if `on`.
fn push_flag_if(v: &mut Vec<String>, on: bool, flag: &str)
    ensures
        names(final(v)@) == names(old(v)@) + flag_if(on, flag@),
{
    if on {
        push_arg(v, flag);
        assert(names(old(v)@).push(flag@) =~= names(old(v)@) + seq![flag@]);
    } else {
        assert(names(v@) =~= names(v@) + Seq::<Seq<char>>::empty());
    }
}

/// `c` is one of the ASCII digits.
pub open spec fn is_digit(c: char) -> bool {
    48 <= c as u32 <= 57
}

/// Every character of `s` is an ASCII digit.
pub open spec fn all_digits(s: Seq<char>) -> bool {
    forall|k: int| 0 <= k < s.len() ==> is_digit(#[trigger] s[k])
}

/// The number that the decimal digits of `s` write.
pub open spec fn digits_value(s: Seq<char>) -> int
    decreases s.len(),
{
    if s.len() == 0 {
        0
    } else {
        digits_value(s.drop_last()) * 10 + (s.last() as u32 - 48)
    }
}

proof fn lemma_digits_value_grows(s: Seq<char>, j: int)
    requires
        all_digits(s),
        0 <= j <= s.len(),
    ensures
        0 <= digits_value(s.subrange(0, j)) <= digits_value(s),
    decreases s.len(),
{
    if j < s.len() {
        let t = s.drop_last();
        assert(all_digits(t));
        assert(t.subrange(0, j) =~= s.subrange(0, j));
        lemma_digits_value_grows(t, j);
        assert(is_digit(s[s.len() - 1]));
    } else {
        assert(s.subrange(0, j) =~= s);
        lemma_digits_value_nonneg(s);
    }
}

proof fn lemma_digits_value_nonneg(s: Seq<char>)
    requires
        all_digits(s),
    ensures
        digits_value(s) >= 0,
    decreases s.len(),
{
    if s.len() > 0 {
        assert(all_digits(s.drop_last()));
        lemma_digits_value_nonneg(s.drop_last());
        assert(is_digit(s[s.len() - 1]));
    }
}

/// The number that the decimal digits of `s` write: `None` when `s` is
/// empty, holds anything but the digits 0 to 9, or names a number beyond
/// `usize`.
fn parse_digits(s: &str) -> (r: Option<usize>)
    ensures
        r is Some <==> s@.len() > 0 && all_digits(s@) && digits_value(s@) <= usize::MAX,
        r matches Some(n) ==> n == digits_value(s@),
{
    let n = s.unicode_len();
    if n == 0 {
        return None;
    }
    let mut acc: usize = 0;
    let mut i: usize = 0;
    while i < n
        invariant
            n == s@.len(),
            i <= n,
            all_digits(s@.subrange(0, i as int)),
            acc == digits_value(s@.subrange(0, i as int)),
        decreases n - i,
    {
        let c = s.get_char(i);
        let code = c as u32;
        if code < 48 || code > 57 {
            assert(!is_digit(s@[i as int]));
            return None;
        }
        let d = (code - 48) as usize;
        let ghost next = s@.subrange(0, i + 1);
        assert(next.drop_last() =~= s@.subrange(0, i as int));
        assert(all_digits(next));
        if acc > (usize::MAX - d) / 10 {
            proof {
                assert(acc * 10 + d > usize::MAX) by (nonlinear_arith)
                    requires
                        acc > (usize::MAX - d) / 10,
                        d <= 9,
                ;
                if all_digits(s@) {
                    lemma_digits_value_grows(s@, i + 1);
                }
            }
            return None;
        }
        assert(acc * 10 + d <= usize::MAX) by (nonlinear_arith)
            requires
                acc <= (usize::MAX - d) / 10,
                d <= 9,
        ;
        acc = acc * 10 + d;
        i = i + 1;
    }
    assert(s@.subrange(0, n as int) =~= s@);
    Some(acc)
}

/// The digits of a VM id: the id without its leading '+', if it has one.
pub open spec fn id_digits(s: Seq<char>) -> Seq<char> {
    if s.len() > 0 && s[0] == '+' {
        s.drop_first()
    } else {
        s
    }
}

/// The number that a VM id names: decimal digits, after one optional '+'.
/// `None` when there are no digits, anything else is there, or the number
/// is beyond `usize`.
pub fn parse_id(s: &str) -> (r: Option<usize>)
    ensures
        r is Some <==> id_digits(s@).len() > 0 && all_digits(id_digits(s@)) && digits_value(
            id_digits(s@),
        ) <= usize::MAX,
        r matches Some(n) ==> n == digits_value(id_digits(s@)),
{
    let n = s.unicode_len();
    if n > 0 && s.get_char(0) == '+' {
        let rest = s.substring_char(1, n);
        assert(rest@ =~= id_digits(s@));
        parse_digits(rest)
    } else {
        parse_digits(s)
    }
}

fn push_required(v: &mut Vec<String>, id: &str, c: &FunctionConfig, cid: u32)
    ensures
        names(final(v)@) == names(old(v)@) + required_args(id@, *c, cid),
{
    let mem = decimal_string(c.memory);
    let vcpus = decimal_string(c.vcpus);
    let cid_str = decimal_string(cid as usize);
    push_pair(v, "--id", id);
    push_pair(v, "--kernel", c.kernel.as_str());
    push_pair(v, "--mem_size", mem.as_str());
    push_pair(v, "--vcpu_count", vcpus.as_str());
    push_pair(v, "--rootfs", c.runtimefs.as_str());
    push_pair(v, "--cid", cid_str.as_str());
    assert(names(v@) =~= names(old(v)@) + required_args(id@, *c, cid));
}

fn push_storage(v: &mut Vec<String>, c: &FunctionConfig)
    ensures
        names(final(v)@) == names(old(v)@) + storage_args(*c),
{
    if c.appfs.as_str().unicode_len() > 0 {
        push_pair(v, "--appfs", c.appfs.as_str());
    } else {
        assert(names(v@) =~= names(v@) + Seq::<Seq<char>>::empty());
    }
    let ghost g1 = names(v@);
    push_opt_pair(v, "--load_from", &c.load_dir);
    push_opt_pair(v, "--dump_to", &c.dump_dir);
    push_opt_pair(v, "--kernel_args", &c.cmdline);
    assert(names(v@) =~= g1 + opt_pair("--load_from"@, c.load_dir) + opt_pair(
        "--dump_to"@,
        c.dump_dir,
    ) + opt_pair("--kernel_args"@, c.cmdline));
    assert(names(v@) =~= names(old(v)@) + storage_args(*c));
}

fn push_switches(v: &mut Vec<String>, c: &FunctionConfig)
    ensures
        names(final(v)@) == names(old(v)@) + switch_args(*c),
{
    push_flag_if(v, c.dump_ws, "--dump_ws");
    push_flag_if(v, c.load_ws, "--load_ws");
    push_flag_if(v, c.copy_base, "--copy_base");
    push_flag_if(v, c.copy_diff, "--copy_diff");
    assert(names(v@) =~= names(old(v)@) + switch_args(*c));
}

fn push_network(v: &mut Vec<String>, network: Option<&str>)
    requires
        network matches Some(s) ==> s@.contains('/'),
    ensures
        names(final(v)@) == names(old(v)@) + network_args(
            match network {
                Some(s) => Some(s@),
                None => None,
            },
        ),
{
    match network {
        Some(s) => {
            let (tap, mac) = split_network(s);
            push_pair(v, "--tap_name", tap);
            push_pair(v, "--mac", mac);
            assert(names(v@) =~= names(old(v)@) + network_args(Some(s@)));
        },
        None => {
            assert(names(v@) =~= names(v@) + Seq::<Seq<char>>::empty());
        },
    }
}

fn push_odirect(v: &mut Vec<String>, odirect: Option<OdirectOption>)
    ensures
        names(final(v)@) == names(old(v)@) + odirect_args(odirect),
{
    match odirect {
        Some(o) => {
            push_flag_if(v, o.base, "--odirect_base");
            push_flag_if(v, !o.diff, "--no_odirect_diff");
            push_flag_if(v, !o.rootfs, "--no_odirect_root");
            push_flag_if(v, !o.appfs, "--no_odirect_app");
            assert(names(v@) =~= names(old(v)@) + odirect_args(odirect));
        },
        None => {
            assert(names(v@) =~= names(v@) + Seq::<Seq<char>>::empty());
        },
    }
}

/// The command line of the VMM process that runs function `c` as VM `id`,
/// with vsock context `cid`, the network device of `network` ("<tap>/<mac>")
/// if given, and the O_DIRECT choices of `odirect` if given.
pub fn vmm_args(
    id: &str,
    c: &FunctionConfig,
    cid: u32,
    network: Option<&str>,
    odirect: Option<OdirectOption>,
) -> (r: Vec<String>)
    requires
        network matches Some(s) ==> s@.contains('/'),
    ensures
        names(r@) == vmm_args_spec(
            id@,
            *c,
            cid,
            match network {
                Some(s) => Some(s@),
                None => None,
            },
            odirect,
        ),
{
    let mut v: Vec<String> = Vec::new();
    assert(names(v@) =~= Seq::empty());
    push_required(&mut v, id, c, cid);
    push_storage(&mut v, c);
    push_switches(&mut v, c);
    push_network(&mut v, network);
    push_odirect(&mut v, odirect);
    let ghost net = match network {
        Some(s) => Some(s@),
        None => None,
    };
    assert(names(v@) =~= vmm_args_spec(id@, *c, cid, net, odirect));
    v
}

} // verus!
