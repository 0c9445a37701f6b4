//! What a node decides while starting: the command line, the addresses it
//! derives from its configuration, the ports of its side services, and the
//! quadkey region a client gives a plain key.

use crate::hashing::{default_hash_str, default_str_hash};
use crate::store::copy_string;
use crate::text::{concat2, digit_char, digit_str, is_prefix, starts_with, str_eq, trim_start_all, trim_start_matches};
use vstd::prelude::*;

verus! {

/// The text before the first ':' of `s`, or all of it.
pub open spec fn before_colon(s: Seq<char>) -> Seq<char>
    decreases s.len(),
{
    if s.len() == 0 {
        s
    } else if s[0] == ':' {
        Seq::empty()
    } else {
        seq![s[0]] + before_colon(s.drop_first())
    }
}

/// The text before the first ':' of `s`, or all of it.
fn take_before_colon(s: &str) -> (r: String)
    ensures
        r@ == before_colon(s@),
{
    let n = s.unicode_len();
    let mut i: usize = 0;
    assert(s@.skip(0) =~= s@);
    assert(s@.take(0) =~= Seq::<char>::empty());
    assert(Seq::<char>::empty() + before_colon(s@) =~= before_colon(s@));
    while i < n && s.get_char(i) != ':'
        invariant
            n == s@.len(),
            i <= n,
            forall|j: int| 0 <= j < i ==> s@[j] != ':',
            before_colon(s@) == s@.take(i as int) + before_colon(s@.skip(i as int)),
        decreases n - i,
    {
        assert(s@.skip(i as int).drop_first() =~= s@.skip(i + 1));
        assert(s@.take(i + 1) =~= s@.take(i as int) + seq![s@[i as int]]);
        i = i + 1;
    }
    assert(before_colon(s@.skip(i as int)) =~= Seq::<char>::empty()) by {
        if i < n {
            assert(s@.skip(i as int)[0] == s@[i as int]);
        } else {
            assert(s@.skip(i as int) =~= Seq::<char>::empty());
        }
    }
    assert(s@.take(i as int) + Seq::<char>::empty() =~= s@.take(i as int));
    s.substring_char(0, i).to_owned()
}

/// The master's log endpoint for a master address: the host, with any
/// leading "http://" and then "https://" dropped and the port cut off,
/// and port 50053.
pub open spec fn master_ws_addr_of(master_addr: Seq<char>) -> Seq<char> {
    before_colon(trim_start_all(trim_start_all(master_addr, "http://"@), "https://"@)) + ":50053"@
}

/// The master's log endpoint for a master address, e.g.
/// "http://127.0.0.1:50051" gives "127.0.0.1:50053".
pub fn derive_master_ws_addr(master_addr: &str) -> (r: String)
    ensures
        r@ == master_ws_addr_of(master_addr@),
{
    proof {
        reveal_strlit("http://");
        reveal_strlit("https://");
        reveal_strlit(":50053");
    }
    let a = trim_start_matches(master_addr, "http://");
    let b = trim_start_matches(a.as_str(), "https://");
    let host = take_before_colon(b.as_str());
    concat2(host.as_str(), ":50053")
}

/// The master address as a URL: unchanged when it starts with "http",
/// otherwise with "http://" in front.
pub fn master_http_addr(master_addr: &str) -> (r: String)
    ensures
        r@ == (if is_prefix("http"@, master_addr@) { master_addr@ } else { "http://"@ + master_addr@ }),
{
    proof {
        reveal_strlit("http");
        reveal_strlit("http://");
    }
    if starts_with(master_addr, "http") {
        master_addr.to_owned()
    } else {
        concat2("http://", master_addr)
    }
}

/// The quadkey region a client gives a key: "000" followed by the key's
/// `DefaultHasher` hash modulo 4.
pub fn key_to_quadkey(key: &str) -> (r: String)
    ensures
        r@ == "000"@ + seq![digit_char((default_str_hash(key@) % 4) as nat)],
{
    let h = default_hash_str(key);
    let region = h % 4;
    proof { reveal_strlit("000"); }
    concat2("000", digit_str(region))
}

/// What the command line asks for.
#[derive(Debug, Clone)]
pub struct CliArgs {
    /// The configuration file, "master.yaml" unless `--config` names one.
    pub config_path: String,
    /// The run mode given on the command line, if any.
    pub mode: Option<String>,
}

/// The command line read from `args[from..]` onwards, given what was read
/// before: "--config" followed by a value sets the configuration file and
/// skips the value; any other argument not starting with "--" sets the
/// mode, the last one winning; anything else is skipped.
pub open spec fn cli_from(args: Seq<Seq<char>>, from: int, config: Seq<char>, mode: Option<Seq<char>>) -> (Seq<char>, Option<Seq<char>>)
    decreases args.len() - from,
{
    if from >= args.len() || from < 0 {
        (config, mode)
    } else if args[from] == "--config"@ && from + 1 < args.len() {
        cli_from(args, from + 2, args[from + 1], mode)
    } else if args[from] == "--config"@ || is_prefix("--"@, args[from]) {
        cli_from(args, from + 1, config, mode)
    } else {
        cli_from(args, from + 1, config, Some(args[from]))
    }
}

/// Reads the command line `args`, whose first element is the program name.
pub fn parse_cli(args: &Vec<String>) -> (r: CliArgs)
    ensures
        ({
            let views = args@.map_values(|a: String| a@);
            let (c, m) = cli_from(views, 1, "master.yaml"@, None);
            &&& r.config_path@ == c
            &&& crate::store::opt_view(r.mode) == m
        }),
{
    let ghost views = args@.map_values(|a: String| a@);
    proof {
        reveal_strlit("master.yaml");
        reveal_strlit("--config");
        reveal_strlit("--");
    }
    let mut config_path = "master.yaml".to_owned();
    let mut mode: Option<String> = None;
    let mut i: usize = 1;
    while i < args.len()
        invariant
            views == args@.map_values(|a: String| a@),
            cli_from(views, i as int, config_path@, crate::store::opt_view(mode))
                == cli_from(views, 1, "master.yaml"@, None),
        decreases args@.len() - i,
    {
        assert(views[i as int] == args@[i as int]@);
        if str_eq(args[i].as_str(), "--config") {
            if i + 1 < args.len() {
                assert(views[i + 1] == args@[i + 1]@);
                config_path = copy_string(&args[i + 1]);
                i = i + 2;
                continue;
            }
        } else if !starts_with(args[i].as_str(), "--") {
            mode = Some(copy_string(&args[i]));
        }
        i = i + 1;
    }
    assert(i >= args@.len());
    CliArgs { config_path, mode }
}

/// Which node a configuration runs.
#[derive(Debug, Clone, Copy, PartialEq, Eq, Structural)]
pub enum RunMode {
    Master,
    Worker,
    Standalone,
    /// An unknown mode: the usage text is shown.
    Usage,
}

/// The run mode a mode name stands for.
pub open spec fn run_mode_of(name: Seq<char>) -> RunMode {
    if name == "master"@ {
        RunMode::Master
    } else if name == "worker"@ {
        RunMode::Worker
    } else if name == "standalone"@ {
        RunMode::Standalone
    } else {
        RunMode::Usage
    }
}

/// The run mode: the command line's, else the configuration's.
pub fn choose_mode(cli_mode: &Option<String>, config_mode: &str) -> (m: RunMode)
    ensures
        m == run_mode_of(match cli_mode {
            Some(x) => x@,
            None => config_mode@,
        }),
{
    proof {
        reveal_strlit("master");
        reveal_strlit("worker");
        reveal_strlit("standalone");
    }
    let name: &str = match cli_mode {
        Some(x) => x.as_str(),
        None => config_mode,
    };
    if str_eq(name, "master") {
        RunMode::Master
    } else if str_eq(name, "worker") {
        RunMode::Worker
    } else if str_eq(name, "standalone") {
        RunMode::Standalone
    } else {
        RunMode::Usage
    }
}

/// The wait in milliseconds before registration attempt `retry + 1`, or
/// `None` after the tenth failed attempt, when the worker gives up.
pub fn register_retry_delay_ms(retry: u32) -> (d: Option<u64>)
    ensures
        retry < 9 ==> d == Some((1000 * (retry + 1)) as u64),
        retry >= 9 ==> d is None,
{
    if retry < 9 {
        Some(1000 * (retry as u64 + 1))
    } else {
        None
    }
}

/// The database files of a worker: "kv" and "meta" with the extensions the
/// master handed out, in the data directory.
pub fn worker_db_paths(data_dir: &str, kv_ext: &str, meta_ext: &str) -> (r: (String, String))
    ensures
        r.0@ == data_dir@ + "/kv"@ + kv_ext@,
        r.1@ == data_dir@ + "/meta"@ + meta_ext@,
{
    let kv = crate::text::concat3(data_dir, "/kv", kv_ext);
    let meta = crate::text::concat3(data_dir, "/meta", meta_ext);
    (kv, meta)
}

/// Whether the worker serves WebSocket clients under `protocol`.
pub fn serves_ws(protocol: &str) -> (b: bool)
    ensures
        b == (protocol@ == "ws"@ || protocol@ == "both"@),
{
    str_eq(protocol, "ws") || str_eq(protocol, "both")
}

/// Whether the worker serves HTTP clients under `protocol`.
pub fn serves_http(protocol: &str) -> (b: bool)
    ensures
        b == (protocol@ == "restful"@ || protocol@ == "both"@),
{
    str_eq(protocol, "restful") || str_eq(protocol, "both")
}

/// `s` with every trailing repetition of a non-empty `p` removed, as
/// `str::trim_end_matches` does.
pub open spec fn trim_end_all(s: Seq<char>, p: Seq<char>) -> Seq<char>
    decreases s.len(),
{
    if p.len() > 0 && p.len() <= s.len() && s.skip(s.len() - p.len()) == p {
        trim_end_all(s.take(s.len() - p.len()), p)
    } else {
        s
    }
}

/// `s` with every trailing repetition of the non-empty `p` removed.
pub fn trim_end_matches(s: &str, p: &str) -> (r: String)
    requires
        p@.len() > 0,
    ensures
        r@ == trim_end_all(s@, p@),
{
    let m = p.unicode_len();
    let mut cur: String = s.to_owned();
    loop
        invariant
            m == p@.len(),
            m > 0,
            trim_end_all(cur@, p@) == trim_end_all(s@, p@),
        decreases cur@.len(),
    {
        let n = cur.as_str().unicode_len();
        if m > n {
            return cur;
        }
        let tail = cur.as_str().substring_char(n - m, n);
        if !str_eq(tail, p) {
            assert(cur@.skip(n - m) =~= tail@);
            return cur;
        }
        assert(cur@.skip(n - m) =~= tail@);
        let head = cur.as_str().substring_char(0, n - m).to_owned();
        assert(head@ =~= cur@.take(n - m));
        cur = head;
    }
}

/// The log database of a master whose registry is at `meta_path`: the path
/// without its trailing ".db" extensions, then "_logs.db".
pub fn log_store_path(meta_path: &str) -> (r: String)
    ensures
        r@ == trim_end_all(meta_path@, ".db"@) + "_logs.db"@,
{
    proof { reveal_strlit(".db"); }
    let base = trim_end_matches(meta_path, ".db");
    concat2(base.as_str(), "_logs.db")
}

/// The text after the last ':' of `s`, or all of it.
pub open spec fn after_last_colon(s: Seq<char>) -> Seq<char>
    decreases s.len(),
{
    if s.len() == 0 {
        s
    } else if s.last() == ':' {
        Seq::empty()
    } else {
        after_last_colon(s.drop_last()).push(s.last())
    }
}

/// The value of a string of decimal digits, or `None` when some character
/// is not a digit.
pub open spec fn digits_value(d: Seq<char>) -> Option<nat>
    decreases d.len(),
{
    if d.len() == 0 {
        Some(0)
    } else if '0' <= d.last() && d.last() <= '9' {
        match digits_value(d.drop_last()) {
            Some(v) => Some(v * 10 + ((d.last() as u32) - 48) as nat),
            None => None,
        }
    } else {
        None
    }
}

/// The `u16` that `str::parse::<u16>` reads from `s`: one optional leading
/// '+' before at least one digit, only decimal digits, and a value that fits.
pub open spec fn parsed_u16(s: Seq<char>) -> Option<u16> {
    let digits = if s.len() > 1 && s[0] == '+' { s.drop_first() } else { s };
    if s.len() == 0 || digits.len() == 0 {
        None
    } else {
        match digits_value(digits) {
            Some(v) => if v <= 65535 { Some(v as u16) } else { None },
            None => None,
        }
    }
}

/// Reads a `u16` as `str::parse::<u16>` does.
pub fn parse_u16(s: &str) -> (r: Option<u16>)
    ensures
        r == parsed_u16(s@),
{
    let n = s.unicode_len();
    if n == 0 {
        return None;
    }
    let start: usize = if n > 1 && s.get_char(0) == '+' { 1 } else { 0 };
    let ghost digits = if s@.len() > 1 && s@[0] == '+' { s@.drop_first() } else { s@ };
    assert(digits =~= s@.skip(start as int));
    let mut v: u32 = 0;
    let mut i: usize = start;
    assert(digits.take(0) =~= Seq::<char>::empty());
    while i < n
        invariant
            n == s@.len(),
            start <= i <= n,
            digits == s@.skip(start as int),
            digits == (if s@.len() > 1 && s@[0] == '+' { s@.drop_first() } else { s@ }),
            n > 0,
            digits.len() > 0,
            digits_value(digits.take(i - start)) == Some(v as nat),
            v <= 65535,
        decreases n - i,
    {
        let c = s.get_char(i);
        assert(digits.take(i + 1 - start).drop_last() =~= digits.take(i - start));
        assert(digits.take(i + 1 - start).last() == c);
        if c < '0' || c > '9' {
            proof {
                let k = i + 1 - start;
                assert(digits_value(digits.take(k)) is None);
                lemma_digits_too_big(digits, k as nat);
                assert(digits.len() > 0);
                assert(parsed_u16(s@) is None);
            }
            return None;
        }
        let d = (c as u32) - 48;
        let next = v * 10 + d;
        if next > 65535 {
            proof {
                let k = i + 1 - start;
                assert(digits_value(digits.take(k)) == Some(next as nat));
                lemma_digits_too_big(digits, k as nat);
                assert(digits.len() > 0);
                assert(parsed_u16(s@) is None);
            }
            return None;
        }
        v = next;
        i = i + 1;
    }
    assert(digits.take(n - start) =~= digits);
    Some(v as u16)
}

/// Once a prefix of `d` is no number, or a number above 65535, the whole
/// of `d` is no number at most 65535.
proof fn lemma_digits_too_big(d: Seq<char>, k: nat)
    requires
        k <= d.len(),
        !(digits_value(d.take(k as int)) matches Some(v) && v <= 65535),
    ensures
        !(digits_value(d) matches Some(v) && v <= 65535),
    decreases d.len() - k,
{
    if k < d.len() {
        assert(d.take((k + 1) as int).drop_last() =~= d.take(k as int));
        lemma_digits_too_big(d, k + 1);
    } else {
        assert(d.take(k as int) =~= d);
    }
}

/// The port a worker listens on: the number after the last ':' of its
/// listen address, or 50061 when that is no port number.
pub fn listen_port(listen_addr: &str) -> (p: u16)
    ensures
        p == (match parsed_u16(after_last_colon(listen_addr@)) {
            Some(v) => v,
            None => 50061,
        }),
{
    let n = listen_addr.unicode_len();
    let mut j: usize = n;
    assert(listen_addr@.take(n as int) =~= listen_addr@);
    while j > 0 && listen_addr.get_char(j - 1) != ':'
        invariant
            n == listen_addr@.len(),
            j <= n,
            after_last_colon(listen_addr@) == after_last_colon(listen_addr@.take(j as int)) + listen_addr@.subrange(j as int, n as int),
        decreases j,
    {
        assert(listen_addr@.take(j as int).drop_last() =~= listen_addr@.take(j - 1));
        assert(listen_addr@.take(j as int).last() == listen_addr@[j - 1]);
        assert(listen_addr@.subrange(j - 1, n as int) =~= seq![listen_addr@[j - 1]] + listen_addr@.subrange(j as int, n as int));
        assert(after_last_colon(listen_addr@.take(j as int)) == after_last_colon(listen_addr@.take(j - 1)).push(listen_addr@[j - 1]));
        assert(after_last_colon(listen_addr@.take(j - 1)).push(listen_addr@[j - 1]) + listen_addr@.subrange(j as int, n as int)
            =~= after_last_colon(listen_addr@.take(j - 1)) + listen_addr@.subrange(j - 1, n as int));
        j = j - 1;
    }
    proof {
        if j == 0 {
            assert(listen_addr@.take(0) =~= Seq::<char>::empty());
        } else {
            assert(listen_addr@.take(j as int).last() == listen_addr@[j - 1]);
        }
        assert(Seq::<char>::empty() + listen_addr@.subrange(j as int, n as int) =~= listen_addr@.subrange(j as int, n as int));
    }
    let tail = listen_addr.substring_char(j, n);
    match parse_u16(tail) {
        Some(v) => v,
        None => 50061,
    }
}

/// The ports of a worker's WebSocket and HTTP services: 1000 and 2000
/// above its gRPC port.
pub fn side_ports(port: u16) -> (r: (u16, u16))
    requires
        port + 2000 <= 65535,
    ensures
        r.0 == port + 1000,
        r.1 == port + 2000,
{
    let ws = port + 1000;
    (ws, ws + 1000)
}

} // verus!
