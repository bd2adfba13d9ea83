//! Plugin daemons: their directory names under the two naming conventions,
//! their repositories, and the version bookkeeping of the updater.
use vstd::prelude::*;
use crate::resolver::{str_prefix, starts_with_str};
use crate::bytes::{parse_unsigned, parse_usize};
use vstd::string::StringSliceAdditionalSpecFns;
use crate::text::{chars_of, line_ranges, lines_of, range_view, trim_range, trim_str};

verus! {

/// A discovered plugin and whether its socket exists.
pub struct PluginInfo {
    pub name: String,
    pub socket_exists: bool,
}

/// An update available for a plugin.
pub struct PluginUpdate {
    pub name: String,
    pub installed_version: String,
    pub latest_version: String,
    pub body: String,
}

/// An update available for the application itself.
pub struct AppUpdate {
    pub version: String,
    pub body: String,
    pub asset_url: String,
}

/// Progress of a download.
pub struct DownloadProgress {
    pub downloaded: u64,
    pub total: Option<u64>,
}

/// `s` without its final `d`, where that leaves something.
pub open spec fn strip_d(s: Seq<char>) -> Option<Seq<char>> {
    if s.len() > 1 && s.last() == 'd' {
        Some(s.drop_last())
    } else {
        None
    }
}

pub open spec fn after(s: Seq<char>, p: Seq<char>) -> Seq<char> {
    s.subrange(p.len() as int, s.len() as int)
}

/// The plugin name of a daemon directory: `hecate-app-<name>d` (current
/// convention) or `hecate-<name>d` (legacy), never the main daemon's.
pub open spec fn plugin_name_of(dir: Seq<char>) -> Option<Seq<char>> {
    if str_prefix(dir, "hecate-app-"@) {
        strip_d(after(dir, "hecate-app-"@))
    } else if str_prefix(dir, "hecate-"@) {
        let n = strip_d(after(dir, "hecate-"@));
        if n == Some("daemon"@) || n == Some("daemn"@) {
            None
        } else {
            n
        }
    } else {
        None
    }
}

/// Whether two strings are equal.
pub fn same_str(a: &str, b: &str) -> (r: bool)
    ensures
        r == (a@ == b@),
{
    if a.unicode_len() != b.unicode_len() {
        return false;
    }
    let r = starts_with_str(a, b);
    assert(a@.subrange(0, b@.len() as int) =~= a@);
    r
}

pub(crate) fn strip_d_exec(s: &str) -> (r: Option<String>)
    ensures
        match r {
            Some(x) => strip_d(s@) == Some(x@),
            None => strip_d(s@) is None,
        },
{
    let n = s.unicode_len();
    if n > 1 && s.get_char(n - 1) == 'd' {
        let t = s.substring_char(0, n - 1);
        assert(t@ =~= s@.drop_last());
        Some(String::from_str(t))
    } else {
        None
    }
}

/// The plugin name of a daemon directory, if it is a plugin's.
pub fn extract_plugin_name(dir_name: &str) -> (r: Option<String>)
    ensures
        match r {
            Some(x) => plugin_name_of(dir_name@) == Some(x@),
            None => plugin_name_of(dir_name@) is None,
        },
{
    let n = dir_name.unicode_len();
    if starts_with_str(dir_name, "hecate-app-") {
        let m = "hecate-app-".unicode_len();
        strip_d_exec(dir_name.substring_char(m, n))
    } else if starts_with_str(dir_name, "hecate-") {
        let m = "hecate-".unicode_len();
        match strip_d_exec(dir_name.substring_char(m, n)) {
            Some(x) => {
                if same_str(x.as_str(), "daemon") || same_str(x.as_str(), "daemn") {
                    None
                } else {
                    Some(x)
                }
            },
            None => None,
        }
    } else {
        None
    }
}

/// The repository of a plugin: `hecate-social/hecate-app-<name>` under the
/// current convention, `hecate-social/hecate-<name>` under the legacy one.
pub fn github_repo(name: &str, is_new_convention: bool) -> (r: String)
    ensures
        r@ == (if is_new_convention {
            "hecate-social/hecate-app-"@ + name@
        } else {
            "hecate-social/hecate-"@ + name@
        }),
{
    let mut r = if is_new_convention {
        String::from_str("hecate-social/hecate-app-")
    } else {
        String::from_str("hecate-social/hecate-")
    };
    r.append(name);
    r
}

/// The dot-separated pieces of `s`.
pub open spec fn pieces_scan(s: Seq<u8>) -> (Seq<Seq<u8>>, Seq<u8>)
    decreases s.len(),
{
    if s.len() == 0 {
        (Seq::empty(), Seq::empty())
    } else {
        let (done, cur) = pieces_scan(s.drop_last());
        if s.last() == 46u8 {
            (done.push(cur), Seq::empty())
        } else {
            (done, cur.push(s.last()))
        }
    }
}

/// The numbers among the dot-separated pieces, in order; pieces that are not
/// numbers up to `u32::MAX` are left out.
pub open spec fn version_numbers(s: Seq<u8>) -> Seq<u32> {
    let (done, cur) = pieces_scan(s);
    numbers_of(done.push(cur))
}

pub open spec fn numbers_of(pieces: Seq<Seq<u8>>) -> Seq<u32>
    decreases pieces.len(),
{
    if pieces.len() == 0 {
        Seq::empty()
    } else {
        numbers_of(pieces.drop_last()) + match parse_unsigned(pieces.last(), 10, u32::MAX as int) {
            Some(v) => seq![v as u32],
            None => Seq::empty(),
        }
    }
}

pub open spec fn nth_or_zero(v: Seq<u32>, i: int) -> u32 {
    if 0 <= i < v.len() {
        v[i]
    } else {
        0
    }
}

/// The first three numbers of a version, missing ones being zero.
pub open spec fn version_key(s: Seq<u8>) -> (u32, u32, u32) {
    let v = version_numbers(s);
    (nth_or_zero(v, 0), nth_or_zero(v, 1), nth_or_zero(v, 2))
}

pub open spec fn key_greater(a: (u32, u32, u32), b: (u32, u32, u32)) -> bool {
    a.0 > b.0 || (a.0 == b.0 && (a.1 > b.1 || (a.1 == b.1 && a.2 > b.2)))
}

fn number_of(piece: &[u8]) -> (r: Option<u32>)
    ensures
        match r {
            Some(v) => parse_unsigned(piece@, 10, u32::MAX as int) == Some(v as int),
            None => parse_unsigned(piece@, 10, u32::MAX as int) is None,
        },
{
    match parse_usize(piece, 10) {
        Some(v) => if v <= 4294967295 {
            Some(v as u32)
        } else {
            None
        },
        None => None,
    }
}

/// The numbers of a version string.
fn version_parts(s: &[u8]) -> (r: Vec<u32>)
    ensures
        r@ == version_numbers(s@),
{
    let mut out: Vec<u32> = Vec::new();
    let mut cur: Vec<u8> = Vec::new();
    let ghost mut done: Seq<Seq<u8>> = Seq::empty();
    let mut k: usize = 0;
    while k < s.len()
        invariant
            k <= s@.len(),
            pieces_scan(s@.subrange(0, k as int)) == (done, cur@),
            out@ == numbers_of(done),
        decreases s@.len() - k,
    {
        assert(s@.subrange(0, k + 1).drop_last() =~= s@.subrange(0, k as int));
        if s[k] == 46u8 {
            let ghost old_done = done;
            proof {
                done = done.push(cur@);
                assert(done.drop_last() =~= old_done);
            }
            match number_of(cur.as_slice()) {
                Some(v) => {
                    out.push(v);
                },
                None => {},
            }
            assert(out@ =~= numbers_of(done));
            cur = Vec::new();
        } else {
            cur.push(s[k]);
        }
        k = k + 1;
    }
    assert(s@.subrange(0, k as int) =~= s@);
    let ghost all = done.push(cur@);
    assert(all.drop_last() =~= done);
    match number_of(cur.as_slice()) {
        Some(v) => {
            out.push(v);
        },
        None => {},
    }
    assert(out@ =~= numbers_of(all));
    out
}

fn nth(v: &Vec<u32>, i: usize) -> (r: u32)
    ensures
        r == nth_or_zero(v@, i as int),
{
    if i < v.len() {
        v[i]
    } else {
        0
    }
}

/// Whether version `remote` is newer than `local`, comparing their first three
/// numbers in order.
pub fn is_newer(remote: &str, local: &str) -> (r: bool)
    ensures
        r == key_greater(version_key(remote.spec_bytes()), version_key(local.spec_bytes())),
{
    let a = version_parts(remote.as_bytes());
    let b = version_parts(local.as_bytes());
    let (a0, a1, a2) = (nth(&a, 0), nth(&a, 1), nth(&a, 2));
    let (b0, b1, b2) = (nth(&b, 0), nth(&b, 1), nth(&b, 2));
    a0 > b0 || (a0 == b0 && (a1 > b1 || (a1 == b1 && a2 > b2)))
}

/// Where a plugin's container definition is, and the names derived from it.
pub struct ContainerInfo {
    pub file_name: String,
    pub image_prefix: String,
    pub service_name: String,
}

/// The container definition of plugin `name` under the current convention
/// where that file exists, else under the legacy one where that file exists.
pub fn resolve_container_info(name: &str, new_exists: bool, legacy_exists: bool) -> (r: Option<ContainerInfo>)
    ensures
        new_exists ==> (r matches Some(c) && c.service_name@ == "hecate-app-"@ + name@ + "d"@
            && c.file_name@ == c.service_name@ + ".container"@ && c.image_prefix@ == "ghcr.io/hecate-social/"@
            + c.service_name@ + ":"@),
        !new_exists && legacy_exists ==> (r matches Some(c) && c.service_name@ == "hecate-"@ + name@ + "d"@
            && c.file_name@ == c.service_name@ + ".container"@ && c.image_prefix@ == "ghcr.io/hecate-social/"@
            + c.service_name@ + ":"@),
        !new_exists && !legacy_exists ==> r is None,
{
    if !new_exists && !legacy_exists {
        return None;
    }
    let mut service = if new_exists {
        String::from_str("hecate-app-")
    } else {
        String::from_str("hecate-")
    };
    service.append(name);
    service.append("d");
    let mut file_name = String::from_str(service.as_str());
    file_name.append(".container");
    let mut image_prefix = String::from_str("ghcr.io/hecate-social/");
    image_prefix.append(service.as_str());
    image_prefix.append(":");
    Some(ContainerInfo { file_name, image_prefix, service_name: service })
}

/// `tag` with every leading `v` removed, as `trim_start_matches('v')` does.
pub open spec fn strip_v(tag: Seq<char>) -> Seq<char>
    decreases tag.len(),
{
    if tag.len() > 0 && tag[0] == 'v' {
        strip_v(tag.drop_first())
    } else {
        tag
    }
}

/// The version named by a release tag such as `v1.2.3`.
pub fn release_version(tag: &str) -> (r: String)
    ensures
        r@ == strip_v(tag@),
{
    let n = tag.unicode_len();
    let mut i: usize = 0;
    assert(tag@.subrange(0, n as int) =~= tag@);
    while i < n && tag.get_char(i) == 'v'
        invariant
            i <= n,
            n == tag@.len(),
            strip_v(tag@) == strip_v(tag@.subrange(i as int, n as int)),
        decreases n - i,
    {
        assert(tag@.subrange(i as int, n as int).drop_first() =~= tag@.subrange(i + 1, n as int));
        i = i + 1;
    }
    assert(strip_v(tag@.subrange(i as int, n as int)) == tag@.subrange(i as int, n as int));
    String::from_str(tag.substring_char(i, n))
}

/// The release asset for a platform: `hecate-web-<os>-<arch>.tar.gz`, with
/// `darwin` or `linux`, and `arm64` or `amd64`.
pub fn asset_name(macos: bool, aarch64: bool) -> (r: String)
    ensures
        r@ == "hecate-web-"@ + (if macos {
            "darwin"@
        } else {
            "linux"@
        }) + "-"@ + (if aarch64 {
            "arm64"@
        } else {
            "amd64"@
        }) + ".tar.gz"@,
{
    let mut r = String::from_str("hecate-web-");
    r.append(if macos { "darwin" } else { "linux" });
    r.append("-");
    r.append(if aarch64 { "arm64" } else { "amd64" });
    r.append(".tar.gz");
    r
}

/// A plugin as the updater knows it: its name and naming convention.
pub struct PluginMeta {
    pub name: String,
    pub is_new_convention: bool,
}

/// The updater's reading of a directory name: `hecate-app-<name>d` with a
/// name is the current convention; otherwise `hecate-<name>d` with a name,
/// other than the main daemon's directories, is the legacy convention.
pub open spec fn meta_of(dir: Seq<char>) -> Option<(Seq<char>, bool)> {
    if str_prefix(dir, "hecate-app-"@) && strip_d(after(dir, "hecate-app-"@)) is Some {
        Some((strip_d(after(dir, "hecate-app-"@))->Some_0, true))
    } else if str_prefix(dir, "hecate-"@) && dir.len() > 0 && dir.last() == 'd' && dir != "hecate-daemon"@
        && dir != "hecate-daemnd"@ && strip_d(after(dir, "hecate-"@)) is Some {
        Some((strip_d(after(dir, "hecate-"@))->Some_0, false))
    } else {
        None
    }
}

pub fn plugin_meta(dir_name: &str) -> (r: Option<PluginMeta>)
    ensures
        match r {
            Some(m) => meta_of(dir_name@) == Some((m.name@, m.is_new_convention)),
            None => meta_of(dir_name@) is None,
        },
{
    let n = dir_name.unicode_len();
    if starts_with_str(dir_name, "hecate-app-") {
        let m = "hecate-app-".unicode_len();
        match strip_d_exec(dir_name.substring_char(m, n)) {
            Some(x) => {
                return Some(PluginMeta { name: x, is_new_convention: true });
            },
            None => {},
        }
    }
    if starts_with_str(dir_name, "hecate-") && n > 0 && dir_name.get_char(n - 1) == 'd' && !same_str(
        dir_name,
        "hecate-daemon",
    ) && !same_str(dir_name, "hecate-daemnd") {
        let m = "hecate-".unicode_len();
        match strip_d_exec(dir_name.substring_char(m, n)) {
            Some(x) => Some(PluginMeta { name: x, is_new_convention: false }),
            None => None,
        }
    } else {
        None
    }
}

/// `i` is the position of the last `c` in `s`.
pub open spec fn last_char_at(s: Seq<char>, c: char, i: int) -> bool {
    0 <= i < s.len() && s[i] == c && forall|t: int| i < t < s.len() ==> s[t] != c
}

/// The version an `Image=` line names: what follows the last colon of the
/// trimmed line.
pub open spec fn image_version(line: Seq<char>) -> Option<Seq<char>> {
    let t = trim_str(line);
    if str_prefix(t, "Image="@) && exists|i: int| last_char_at(t, ':', i) {
        let i = choose|i: int| last_char_at(t, ':', i);
        Some(t.subrange(i + 1, t.len() as int))
    } else {
        None
    }
}

/// The version of the first line that names one.
pub open spec fn first_image_version(lines: Seq<Seq<char>>) -> Option<Seq<char>>
    decreases lines.len(),
{
    if lines.len() == 0 {
        None
    } else {
        match image_version(lines[0]) {
            Some(v) => Some(v),
            None => first_image_version(lines.drop_first()),
        }
    }
}

/// Whether `cs[a..b]` begins with `p`.
fn prefix_at(cs: &Vec<char>, a: usize, b: usize, p: &Vec<char>) -> (r: bool)
    requires
        a <= b <= cs@.len(),
    ensures
        r == str_prefix(cs@.subrange(a as int, b as int), p@),
{
    let ghost s = cs@.subrange(a as int, b as int);
    if p.len() > b - a {
        return false;
    }
    let mut k: usize = 0;
    while k < p.len()
        invariant
            k <= p@.len() <= b - a,
            a <= b <= cs@.len(),
            s == cs@.subrange(a as int, b as int),
            forall|t: int| 0 <= t < k ==> s[t] == p@[t],
        decreases p@.len() - k,
    {
        if cs[a + k] != p[k] {
            assert(s.subrange(0, p@.len() as int)[k as int] != p@[k as int]);
            return false;
        }
        k = k + 1;
    }
    assert(s.subrange(0, p@.len() as int) =~= p@);
    true
}

/// The position of the last `c` in `cs[a..b]`, counted from `a`.
fn last_char(cs: &Vec<char>, a: usize, b: usize, c: char) -> (r: Option<usize>)
    requires
        a <= b <= cs@.len(),
    ensures
        r matches Some(i) ==> last_char_at(cs@.subrange(a as int, b as int), c, i as int),
        r is None ==> !exists|i: int| last_char_at(cs@.subrange(a as int, b as int), c, i),
{
    let ghost s = cs@.subrange(a as int, b as int);
    let mut j: usize = b;
    while j > a
        invariant
            a <= j <= b <= cs@.len(),
            s == cs@.subrange(a as int, b as int),
            forall|t: int| j - a <= t < s.len() ==> s[t] != c,
        decreases j,
    {
        if cs[j - 1] == c {
            return Some(j - 1 - a);
        }
        j = j - 1;
    }
    None
}

/// The version of the image that a container definition names: from its
/// first `Image=` line that has a colon.
pub fn parse_installed_version(content: &str) -> (r: Option<String>)
    ensures
        match r {
            Some(v) => first_image_version(lines_of(content@)) == Some(v@),
            None => first_image_version(lines_of(content@)) is None,
        },
{
    let cs = chars_of(content);
    let tag = chars_of("Image=");
    let ranges = line_ranges(&cs);
    let ghost ls = lines_of(content@);
    let mut i: usize = 0;
    assert(ls.subrange(0, ls.len() as int) =~= ls);
    while i < ranges.len()
        invariant
            i <= ranges@.len() == ls.len(),
            cs@ == content@,
            tag@ == "Image="@,
            ls == lines_of(content@),
            forall|k: int| 0 <= k < ranges@.len() ==> (#[trigger] ranges@[k]).0 <= ranges@[k].1 <= cs@.len(),
            forall|k: int| 0 <= k < ranges@.len() ==> #[trigger] range_view(cs@, ranges@[k]) == ls[k],
            first_image_version(ls) == first_image_version(ls.subrange(i as int, ls.len() as int)),
        decreases ranges@.len() - i,
    {
        let (a0, b0) = ranges[i];
        assert(range_view(cs@, ranges@[i as int]) == ls[i as int]);
        let (a, b) = trim_range(&cs, a0, b0);
        let ghost t = cs@.subrange(a as int, b as int);
        assert(t == trim_str(ls[i as int]));
        let ghost rest = ls.subrange(i as int, ls.len() as int);
        assert(rest[0] == ls[i as int]);
        assert(rest.drop_first() =~= ls.subrange(i + 1, ls.len() as int));
        if prefix_at(&cs, a, b, &tag) {
            match last_char(&cs, a, b, ':') {
                Some(c) => {
                    proof {
                        assert forall|j: int| last_char_at(t, ':', j) implies j == c by {
                            if j < c {
                                assert(t[c as int] != ':');
                            } else if j > c {
                                assert(t[j] != ':');
                            }
                        }
                        assert(cs@.subrange(a + c + 1, b as int) =~= t.subrange(c + 1, t.len() as int));
                    }
                    return Some(String::from_str(content.substring_char(a + c + 1, b)));
                },
                None => {},
            }
        }
        i = i + 1;
    }
    None
}

/// Whether a line is the `Image=` line of plugin `name`.
pub open spec fn is_image_line_of(line: Seq<char>, name: Seq<char>) -> bool {
    let t = trim_str(line);
    str_prefix(t, "Image="@) && (contains_chars(t, "hecate-app-"@ + name + "d:"@) || contains_chars(
        t,
        "hecate-"@ + name + "d:"@,
    ))
}

pub open spec fn contains_chars(h: Seq<char>, n: Seq<char>) -> bool {
    exists|i: int| 0 <= i && i + n.len() <= h.len() && #[trigger] h.subrange(i, i + n.len()) == n
}

/// Lines joined by line feeds.
pub open spec fn join_lines(ls: Seq<Seq<char>>) -> Seq<char>
    decreases ls.len(),
{
    if ls.len() == 0 {
        Seq::empty()
    } else if ls.len() == 1 {
        ls[0]
    } else {
        join_lines(ls.drop_last()) + "\n"@ + ls.last()
    }
}

pub open spec fn replaced_line(line: Seq<char>, name: Seq<char>, image: Seq<char>) -> Seq<char> {
    if is_image_line_of(line, name) {
        image
    } else {
        line
    }
}

pub open spec fn replaced_lines(ls: Seq<Seq<char>>, name: Seq<char>, image: Seq<char>) -> Seq<Seq<char>> {
    Seq::new(ls.len(), |i: int| replaced_line(ls[i], name, image))
}

/// A container definition with the `Image=` lines of plugin `name` replaced
/// by `Image=<prefix><version>`, lines joined by line feeds and a final line
/// feed kept; none where there is no such line.
pub open spec fn image_updated(
    content: Seq<char>,
    name: Seq<char>,
    prefix: Seq<char>,
    version: Seq<char>,
) -> Option<Seq<char>> {
    let ls = lines_of(content);
    if exists|i: int| 0 <= i < ls.len() && #[trigger] is_image_line_of(ls[i], name) {
        let j = join_lines(replaced_lines(ls, name, "Image="@ + prefix + version));
        Some(
            if content.len() > 0 && content.last() == '\n' && !(j.len() > 0 && j.last() == '\n') {
                j + "\n"@
            } else {
                j
            },
        )
    } else {
        None
    }
}

/// Whether `cs[a..b]` contains `p`.
fn contains_at(cs: &Vec<char>, a: usize, b: usize, p: &Vec<char>) -> (r: bool)
    requires
        a <= b <= cs@.len(),
    ensures
        r == contains_chars(cs@.subrange(a as int, b as int), p@),
{
    let ghost s = cs@.subrange(a as int, b as int);
    let mut i: usize = a;
    while i <= b
        invariant
            a <= i,
            a <= b <= cs@.len(),
            s == cs@.subrange(a as int, b as int),
            forall|t: int| 0 <= t < i - a && t + p@.len() <= s.len() ==> #[trigger] s.subrange(t, t + p@.len()) != p@,
        decreases b + 1 - i,
    {
        if prefix_at(cs, i, b, p) {
            assert(cs@.subrange(i as int, b as int).subrange(0, p@.len() as int) =~= s.subrange(
                i - a,
                i - a + p@.len(),
            ));
            return true;
        }
        proof {
            if i - a + p@.len() <= s.len() {
                assert(cs@.subrange(i as int, b as int).subrange(0, p@.len() as int) =~= s.subrange(
                    i - a,
                    i - a + p@.len(),
                ));
            }
        }
        if i == b {
            return false;
        }
        i = i + 1;
    }
    false
}

/// The container definition `content` with plugin `name`'s image set to
/// `<prefix><version>`; none where it has no `Image=` line for the plugin.
pub fn set_image_version(content: &str, name: &str, prefix: &str, version: &str) -> (r: Option<String>)
    ensures
        match r {
            Some(s) => image_updated(content@, name@, prefix@, version@) == Some(s@),
            None => image_updated(content@, name@, prefix@, version@) is None,
        },
{
    let cs = chars_of(content);
    let tag = chars_of("Image=");
    let mut app_pat = String::from_str("hecate-app-");
    app_pat.append(name);
    app_pat.append("d:");
    let mut legacy_pat = String::from_str("hecate-");
    legacy_pat.append(name);
    legacy_pat.append("d:");
    let app_cs = chars_of(app_pat.as_str());
    let legacy_cs = chars_of(legacy_pat.as_str());
    let mut image = String::from_str("Image=");
    image.append(prefix);
    image.append(version);
    let ranges = line_ranges(&cs);
    let ghost ls = lines_of(content@);
    let ghost image_v = "Image="@ + prefix@ + version@;
    let ghost rl = replaced_lines(ls, name@, image_v);
    let mut out = String::new();
    let mut found = false;
    let mut i: usize = 0;
    while i < ranges.len()
        invariant
            i <= ranges@.len() == ls.len(),
            cs@ == content@,
            tag@ == "Image="@,
            app_cs@ == "hecate-app-"@ + name@ + "d:"@,
            legacy_cs@ == "hecate-"@ + name@ + "d:"@,
            image@ == image_v,
            ls == lines_of(content@),
            rl == replaced_lines(ls, name@, image_v),
            forall|k: int| 0 <= k < ranges@.len() ==> (#[trigger] ranges@[k]).0 <= ranges@[k].1 <= cs@.len(),
            forall|k: int| 0 <= k < ranges@.len() ==> #[trigger] range_view(cs@, ranges@[k]) == ls[k],
            out@ == join_lines(rl.subrange(0, i as int)),
            found == exists|k: int| 0 <= k < i && #[trigger] is_image_line_of(ls[k], name@),
        decreases ranges@.len() - i,
    {
        let (a0, b0) = ranges[i];
        assert(range_view(cs@, ranges@[i as int]) == ls[i as int]);
        let (a, b) = trim_range(&cs, a0, b0);
        let hit = prefix_at(&cs, a, b, &tag) && (contains_at(&cs, a, b, &app_cs) || contains_at(&cs, a, b, &legacy_cs));
        assert(hit == is_image_line_of(ls[i as int], name@));
        let ghost before = rl.subrange(0, i as int);
        assert(rl.subrange(0, i + 1).drop_last() =~= before);
        assert(rl.subrange(0, i + 1).last() == rl[i as int]);
        if i > 0 {
            out.append("\n");
        }
        if hit {
            out.append(image.as_str());
            found = true;
        } else {
            out.append(content.substring_char(a0, b0));
        }
        proof {
            if i == 0 {
                assert(before =~= Seq::<Seq<char>>::empty());
                assert(out@ =~= join_lines(rl.subrange(0, 1)));
            } else {
                assert(out@ =~= join_lines(rl.subrange(0, i + 1)));
            }
        }
        i = i + 1;
    }
    assert(rl.subrange(0, i as int) =~= rl);
    if !found {
        return None;
    }
    let n = cs.len();
    let m = out.as_str().unicode_len();
    if n > 0 && cs[n - 1] == '\n' && !(m > 0 && out.as_str().get_char(m - 1) == '\n') {
        out.append("\n");
    }
    Some(out)
}

} // verus!
