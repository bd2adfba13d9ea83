//! Which Unix socket a request goes to. Resolution only chooses among
//! candidate paths; whether a candidate exists is found out by the caller and
//! handed in, so that nothing here touches the filesystem.
use vstd::prelude::*;

verus! {

/// `base` joined with the relative path `rel`, as `Path::join` joins them.
pub open spec fn join(base: Seq<char>, rel: Seq<char>) -> Seq<char> {
    if base.len() == 0 {
        rel
    } else if base.last() == '/' {
        base + rel
    } else {
        base + "/"@ + rel
    }
}

/// `p` begins `s`.
pub open spec fn str_prefix(s: Seq<char>, p: Seq<char>) -> bool {
    p.len() <= s.len() && s.subrange(0, p.len() as int) == p
}

/// Whether `s` begins with `p`.
pub fn starts_with_str(s: &str, p: &str) -> (r: bool)
    ensures
        r == str_prefix(s@, p@),
{
    let n = s.unicode_len();
    let m = p.unicode_len();
    if m > n {
        return false;
    }
    let mut k: usize = 0;
    while k < m
        invariant
            k <= m <= n,
            n == s@.len(),
            m == p@.len(),
            forall|t: int| 0 <= t < k ==> s@[t] == p@[t],
        decreases m - k,
    {
        if s.get_char(k) != p.get_char(k) {
            assert(s@.subrange(0, m as int)[k as int] != p@[k as int]);
            return false;
        }
        k = k + 1;
    }
    assert(s@.subrange(0, m as int) =~= p@);
    true
}

/// `i` is the position of the first `c` in `s`.
pub open spec fn first_char_at(s: Seq<char>, c: char, i: int) -> bool {
    0 <= i < s.len() && s[i] == c && forall|t: int| 0 <= t < i ==> s[t] != c
}

/// The position of the first `c` in `s`, if any.
pub fn find_char(s: &str, c: char) -> (r: Option<usize>)
    ensures
        r matches Some(i) ==> first_char_at(s@, c, i as int),
        r is None ==> forall|t: int| 0 <= t < s@.len() ==> s@[t] != c,
{
    let n = s.unicode_len();
    let mut k: usize = 0;
    while k < n
        invariant
            k <= n,
            n == s@.len(),
            forall|t: int| 0 <= t < k ==> s@[t] != c,
        decreases n - k,
    {
        if s.get_char(k) == c {
            return Some(k);
        }
        k = k + 1;
    }
    None
}

/// `base` joined with `rel`.
pub fn join_path(base: &str, rel: &str) -> (r: String)
    ensures
        r@ == join(base@, rel@),
{
    let n = base.unicode_len();
    let mut r = String::from_str(base);
    if n == 0 {
        return String::from_str(rel);
    }
    if base.get_char(n - 1) != '/' {
        r.append("/");
    }
    r.append(rel);
    r
}

/// The primary daemon's socket under a home directory.
pub open spec fn user_socket(home: Seq<char>) -> Seq<char> {
    join(home, ".hecate/hecate-daemon/sockets/api.sock"@)
}

/// The primary daemon's system-wide socket.
pub open spec fn system_socket() -> Seq<char> {
    "/run/hecate/api.sock"@
}

/// The primary daemon's socket: the override where it is not empty and
/// exists, else the system socket where it exists, else the socket under the
/// home directory (whether it exists or not), else the system socket.
pub open spec fn primary_socket(
    override_path: Option<Seq<char>>,
    override_exists: bool,
    system_exists: bool,
    home: Option<Seq<char>>,
) -> Seq<char> {
    match override_path {
        Some(p) if p.len() > 0 && override_exists => p,
        _ => if system_exists {
            system_socket()
        } else {
            match home {
                Some(h) => user_socket(h),
                None => system_socket(),
            }
        },
    }
}

pub open spec fn str_opt(o: Option<&str>) -> Option<Seq<char>> {
    match o {
        Some(s) => Some(s@),
        None => None,
    }
}

/// The socket of the primary daemon under a home directory.
pub fn user_socket_path(home: &str) -> (r: String)
    ensures
        r@ == user_socket(home@),
{
    join_path(home, ".hecate/hecate-daemon/sockets/api.sock")
}

/// The socket of the primary daemon, given the override, whether it exists,
/// whether the system socket exists, and the home directory.
pub fn resolve_socket_path(
    override_path: Option<&str>,
    override_exists: bool,
    system_exists: bool,
    home: Option<&str>,
) -> (r: String)
    ensures
        r@ == primary_socket(str_opt(override_path), override_exists, system_exists, str_opt(home)),
{
    match override_path {
        Some(p) => {
            if p.unicode_len() > 0 && override_exists {
                return String::from_str(p);
            }
        },
        None => {},
    }
    if system_exists {
        String::from_str("/run/hecate/api.sock")
    } else {
        match home {
            Some(h) => user_socket_path(h),
            None => String::from_str("/run/hecate/api.sock"),
        }
    }
}

/// A plugin daemon's socket directory name under the current convention.
pub open spec fn app_dir_name(name: Seq<char>) -> Seq<char> {
    "hecate-app-"@ + name + "d"@
}

/// A plugin daemon's socket directory name under the legacy convention.
pub open spec fn legacy_dir_name(name: Seq<char>) -> Seq<char> {
    "hecate-"@ + name + "d"@
}

pub open spec fn socket_in(home: Seq<char>, dir_name: Seq<char>) -> Seq<char> {
    join(join(home, ".hecate"@), dir_name + "/sockets/api.sock"@)
}

/// A plugin daemon's socket: the current convention's where it exists, else
/// the legacy one's where it exists, else the current convention's; without
/// a home directory, the system-wide path.
pub open spec fn plugin_socket(
    name: Seq<char>,
    home: Option<Seq<char>>,
    new_exists: bool,
    legacy_exists: bool,
) -> Seq<char> {
    match home {
        Some(h) => if !new_exists && legacy_exists {
            socket_in(h, legacy_dir_name(name))
        } else {
            socket_in(h, app_dir_name(name))
        },
        None => "/run/"@ + app_dir_name(name) + "/api.sock"@,
    }
}

fn dir_name(prefix: &str, name: &str) -> (r: String)
    ensures
        r@ == prefix@ + name@ + "d"@,
{
    let mut r = String::from_str(prefix);
    r.append(name);
    r.append("d");
    r
}

fn socket_under(home: &str, dir: &str) -> (r: String)
    ensures
        r@ == socket_in(home@, dir@),
{
    let base = join_path(home, ".hecate");
    let mut rel = String::from_str(dir);
    rel.append("/sockets/api.sock");
    join_path(base.as_str(), rel.as_str())
}

/// The two candidate sockets of a plugin daemon under a home directory:
/// the current convention's, then the legacy one's.
pub fn plugin_socket_paths(home: &str, name: &str) -> (r: (String, String))
    ensures
        r.0@ == socket_in(home@, app_dir_name(name@)),
        r.1@ == socket_in(home@, legacy_dir_name(name@)),
{
    let a = dir_name("hecate-app-", name);
    let l = dir_name("hecate-", name);
    (socket_under(home, a.as_str()), socket_under(home, l.as_str()))
}

/// The socket of a plugin daemon, given whether its two candidates exist.
pub fn resolve_plugin_socket_path(
    name: &str,
    home: Option<&str>,
    new_exists: bool,
    legacy_exists: bool,
) -> (r: String)
    ensures
        r@ == plugin_socket(name@, str_opt(home), new_exists, legacy_exists),
{
    match home {
        Some(h) => {
            let (n, l) = plugin_socket_paths(h, name);
            if !new_exists && legacy_exists {
                l
            } else {
                n
            }
        },
        None => {
            let mut r = String::from_str("/run/");
            let d = dir_name("hecate-app-", name);
            r.append(d.as_str());
            r.append("/api.sock");
            r
        },
    }
}

/// The daemon a request is for.
#[derive(Debug, PartialEq, Eq)]
pub enum SocketTarget {
    Primary,
    Plugin(String),
}

/// The target and the path to send for a request path: `/plugin/<name>/<rest>`
/// goes to the plugin `<name>` as `/<rest>` (`/plugin/<name>` alone as `/`);
/// any other path goes to the primary daemon unchanged.
pub open spec fn route(path: Seq<char>) -> (Option<Seq<char>>, Seq<char>) {
    let p = "/plugin/"@;
    if str_prefix(path, p) {
        let rest = path.subrange(p.len() as int, path.len() as int);
        if exists|i: int| first_char_at(rest, '/', i) {
            let i = choose|i: int| first_char_at(rest, '/', i);
            (Some(rest.subrange(0, i)), rest.subrange(i, rest.len() as int))
        } else {
            (Some(rest), "/"@)
        }
    } else {
        (None, path)
    }
}

pub open spec fn target_view(t: SocketTarget) -> Option<Seq<char>> {
    match t {
        SocketTarget::Primary => None,
        SocketTarget::Plugin(n) => Some(n@),
    }
}

/// Routes a request path to its daemon, rewriting plugin paths.
pub fn resolve_socket_for_path(path: &str) -> (r: (SocketTarget, String))
    ensures
        (target_view(r.0), r.1@) == route(path@),
{
    let p = "/plugin/";
    if starts_with_str(path, p) {
        let n = path.unicode_len();
        let m = p.unicode_len();
        let rest = path.substring_char(m, n);
        let rn = rest.unicode_len();
        match find_char(rest, '/') {
            Some(i) => {
                proof {
                    assert forall|j: int| first_char_at(rest@, '/', j) implies j == i by {
                        if j < i {
                            assert(rest@[j] != '/');
                        } else if j > i {
                            assert(rest@[i as int] != '/');
                        }
                    }
                }
                let name = String::from_str(rest.substring_char(0, i));
                let tail = String::from_str(rest.substring_char(i, rn));
                (SocketTarget::Plugin(name), tail)
            },
            None => (SocketTarget::Plugin(String::from_str(rest)), String::from_str("/")),
        }
    } else {
        (SocketTarget::Primary, String::from_str(path))
    }
}

/// The directory that holds the primary daemon's socket, which the liveness
/// watcher watches.
pub fn socket_dir(home: Option<&str>) -> (r: String)
    ensures
        r@ == match home {
            Some(h) => join(h@, ".hecate/hecate-daemon/sockets"@),
            None => "/run/hecate"@,
        },
{
    match home {
        Some(h) => join_path(h, ".hecate/hecate-daemon/sockets"),
        None => String::from_str("/run/hecate"),
    }
}

/// The primary daemon's socket that the liveness watcher watches.
pub fn socket_path(home: Option<&str>) -> (r: String)
    ensures
        r@ == match home {
            Some(h) => join(join(h@, ".hecate/hecate-daemon/sockets"@), "api.sock"@),
            None => join("/run/hecate"@, "api.sock"@),
        },
{
    let d = socket_dir(home);
    join_path(d.as_str(), "api.sock")
}

/// The three event channels of one stream: `<prefix>-<kind>-<id>` for its
/// chunks, and `<prefix>-done-<id>` and `<prefix>-error-<id>`.
pub struct StreamChannels {
    pub chunk: String,
    pub done: String,
    pub error: String,
}

pub open spec fn channel(prefix: Seq<char>, kind: Seq<char>, id: Seq<char>) -> Seq<char> {
    prefix + "-"@ + kind + "-"@ + id
}

pub fn channel_name(prefix: &str, kind: &str, id: &str) -> (r: String)
    ensures
        r@ == channel(prefix@, kind@, id@),
{
    let mut r = String::from_str(prefix);
    r.append("-");
    r.append(kind);
    r.append("-");
    r.append(id);
    r
}

/// The channels of the stream `id`: chunks under `chunk_kind`, so that streams
/// of different ids never share a channel.
pub fn stream_channels(prefix: &str, chunk_kind: &str, id: &str) -> (r: StreamChannels)
    ensures
        r.chunk@ == channel(prefix@, chunk_kind@, id@),
        r.done@ == channel(prefix@, "done"@, id@),
        r.error@ == channel(prefix@, "error"@, id@),
{
    StreamChannels {
        chunk: channel_name(prefix, chunk_kind, id),
        done: channel_name(prefix, "done", id),
        error: channel_name(prefix, "error", id),
    }
}

} // verus!
