//! Agent prompts: the front matter of agent files, `\uXXXX` escapes in their
//! fields, the assembly of the system prompt, and the table of roles. The
//! files themselves are found and read by the caller.
use vstd::prelude::*;
use crate::resolver::{first_char_at, join, join_path};
use crate::resolver::str_prefix;
use crate::text::{
    chars_of, chars_range, find_from, first_in, first_occurrence, line_ranges, lines_of, matches_here,
    push_char, range_is, range_view, skip_back, skip_from, skip_lead, skip_range, skip_trail, string_of,
    trim_range, trim_str,
};

verus! {

/// A role and whether its file is there.
pub struct RoleInfo {
    pub code: String,
    pub name: String,
    pub available: bool,
}

/// What was found of the agent files.
pub struct PersonalityInfo {
    pub agents_path: Option<String>,
    pub personality_loaded: bool,
    pub alc_loaded: bool,
    pub active_role: Option<String>,
    pub roles: Vec<RoleInfo>,
}

/// An agent as its file describes it.
pub struct AgentPrompt {
    pub id: String,
    pub name: String,
    pub role: String,
    pub icon: String,
    pub description: String,
    pub prompt: String,
}

/// The roles, in order: code, name and file under the agents directory.
pub open spec fn role_spec(i: int) -> (Seq<char>, Seq<char>, Seq<char>) {
    if i == 0 {
        ("dna"@, "Discovery & Analysis"@, "philosophy/HECATE_DISCOVERY_N_ANALYSIS.md"@)
    } else if i == 1 {
        ("anp"@, "Architecture & Planning"@, "philosophy/HECATE_ARCHITECTURE_N_PLANNING.md"@)
    } else if i == 2 {
        ("tni"@, "Testing & Implementation"@, "philosophy/HECATE_TESTING_N_IMPLEMENTATION.md"@)
    } else {
        ("dno"@, "Deployment & Operations"@, "philosophy/HECATE_DEPLOYMENT_N_OPERATIONS.md"@)
    }
}

pub const ROLE_COUNT: usize = 4;

/// A role of the table.
pub struct RoleDef {
    pub code: String,
    pub name: String,
    pub file: String,
}

pub fn role_def(i: usize) -> (r: RoleDef)
    requires
        i < ROLE_COUNT,
    ensures
        (r.code@, r.name@, r.file@) == role_spec(i as int),
{
    let (c, n, f) = if i == 0 {
        ("dna", "Discovery & Analysis", "philosophy/HECATE_DISCOVERY_N_ANALYSIS.md")
    } else if i == 1 {
        ("anp", "Architecture & Planning", "philosophy/HECATE_ARCHITECTURE_N_PLANNING.md")
    } else if i == 2 {
        ("tni", "Testing & Implementation", "philosophy/HECATE_TESTING_N_IMPLEMENTATION.md")
    } else {
        ("dno", "Deployment & Operations", "philosophy/HECATE_DEPLOYMENT_N_OPERATIONS.md")
    };
    RoleDef { code: String::from_str(c), name: String::from_str(n), file: String::from_str(f) }
}

/// The roles with whether each one's file exists (`available[i]`, absent
/// where `available` is shorter than the table).
pub fn list_roles(available: &Vec<bool>) -> (r: Vec<RoleInfo>)
    ensures
        r@.len() == ROLE_COUNT,
        forall|i: int|
            0 <= i < ROLE_COUNT ==> (#[trigger] r@[i]).code@ == role_spec(i).0 && r@[i].name@ == role_spec(i).1
                && r@[i].available == (i < available@.len() && available@[i]),
{
    let mut out: Vec<RoleInfo> = Vec::new();
    let mut i: usize = 0;
    while i < ROLE_COUNT
        invariant
            i <= ROLE_COUNT,
            out@.len() == i,
            forall|k: int|
                0 <= k < i ==> (#[trigger] out@[k]).code@ == role_spec(k).0 && out@[k].name@ == role_spec(k).1
                    && out@[k].available == (k < available@.len() && available@[k]),
        decreases ROLE_COUNT - i,
    {
        let d = role_def(i);
        let a = i < available.len() && available[i];
        out.push(RoleInfo { code: d.code, name: d.name, available: a });
        i = i + 1;
    }
    out
}

/// The file of the role `code`, if it is one of the table's.
pub fn role_file(code: &str) -> (r: Option<String>)
    ensures
        r matches Some(f) ==> exists|i: int| 0 <= i < ROLE_COUNT && role_spec(i).0 == code@ && role_spec(i).2 == f@,
        r is None ==> forall|i: int| 0 <= i < ROLE_COUNT ==> role_spec(i).0 != code@,
{
    let mut i: usize = 0;
    while i < ROLE_COUNT
        invariant
            i <= ROLE_COUNT,
            forall|k: int| 0 <= k < i ==> role_spec(k).0 != code@,
        decreases ROLE_COUNT - i,
    {
        let d = role_def(i);
        if crate::plugins::same_str(d.code.as_str(), code) {
            return Some(d.file);
        }
        i = i + 1;
    }
    None
}

/// What was found of the agent files: the directory, whether the personality
/// and ALC files exist, and the roles.
pub fn personality_info(
    agents_path: Option<String>,
    personality_exists: bool,
    alc_exists: bool,
    role_available: &Vec<bool>,
) -> (r: PersonalityInfo)
    ensures
        r.agents_path == agents_path,
        r.personality_loaded == (agents_path is Some && personality_exists),
        r.alc_loaded == (agents_path is Some && alc_exists),
        r.active_role is None,
        agents_path is None ==> r.roles@.len() == 0,
        agents_path is Some ==> r.roles@.len() == ROLE_COUNT,
        agents_path is Some ==> forall|i: int|
            0 <= i < ROLE_COUNT ==> (#[trigger] r.roles@[i]).code@ == role_spec(i).0 && r.roles@[i].name@
                == role_spec(i).1 && r.roles@[i].available == (i < role_available@.len() && role_available@[i]),
{
    let found = agents_path.is_some();
    let roles = if found {
        list_roles(role_available)
    } else {
        Vec::new()
    };
    PersonalityInfo {
        agents_path,
        personality_loaded: found && personality_exists,
        alc_loaded: found && alc_exists,
        active_role: None,
        roles,
    }
}

/// The places where the agent files may be, in order.
pub fn agents_dir_candidates(home: &str, cwd: Option<&str>) -> (r: Vec<String>)
    ensures
        r@.len() == if cwd is Some {
            3int
        } else {
            2int
        },
        r@[0]@ == join(home@, ".hecate/agents"@),
        r@[1]@ == join(home@, "work/github.com/hecate-social/hecate-agents"@),
        cwd matches Some(c) ==> r@[2]@ == join(c@, ".hecate/agents"@),
{
    let mut r: Vec<String> = Vec::new();
    r.push(join_path(home, ".hecate/agents"));
    r.push(join_path(home, "work/github.com/hecate-social/hecate-agents"));
    match cwd {
        Some(c) => r.push(join_path(c, ".hecate/agents")),
        None => {},
    }
    r
}

/// A file's text where it is not blank, as the prompt loader reads files.
pub fn non_blank(content: String) -> (r: Option<String>)
    ensures
        trim_str(content@).len() > 0 ==> r == Some(content),
        trim_str(content@).len() == 0 ==> r is None,
{
    let cs = chars_of(content.as_str());
    let n = cs.len();
    let (a, b) = trim_range(&cs, 0, n);
    assert(cs@.subrange(0, n as int) =~= cs@);
    if a < b {
        Some(content)
    } else {
        None
    }
}

/// The separator between the parts of the system prompt.
pub open spec fn part_separator() -> Seq<char> {
    "\n\n---\n\n"@
}

pub open spec fn joined_parts(parts: Seq<Seq<char>>) -> Seq<char>
    decreases parts.len(),
{
    if parts.len() == 0 {
        Seq::empty()
    } else if parts.len() == 1 {
        parts[0]
    } else {
        joined_parts(parts.drop_last()) + part_separator() + parts.last()
    }
}

pub open spec fn present(parts: Seq<Option<String>>) -> Seq<Seq<char>>
    decreases parts.len(),
{
    if parts.len() == 0 {
        Seq::empty()
    } else {
        let rest = present(parts.drop_last());
        match parts.last() {
            Some(p) => rest.push(p@),
            None => rest,
        }
    }
}

/// Why no system prompt could be built.
#[derive(Clone, Copy, PartialEq, Eq, Structural, Debug)]
pub enum PromptError {
    /// No agents directory was found.
    AgentsNotFound,
    /// None of the files had any text.
    NoPersonalityFiles,
}

fn add_part(out: &mut String, n: usize, prefix: Ghost<Seq<Option<String>>>, part: &Option<String>) -> (r: usize)
    requires
        old(out)@ == joined_parts(present(prefix@)),
        n == present(prefix@).len(),
        n < 3,
    ensures
        final(out)@ == joined_parts(present(prefix@.push(*part))),
        r == present(prefix@.push(*part)).len(),
        r <= n + 1,
{
    assert(prefix@.push(*part).drop_last() =~= prefix@);
    match part {
        Some(p) => {
            if n > 0 {
                out.append("\n\n---\n\n");
            }
            out.append(p.as_str());
            proof {
                let ps = present(prefix@);
                assert(ps.push(p@).drop_last() =~= ps);
                if n == 0 {
                    assert(old(out)@ =~= Seq::<char>::empty());
                    assert(final(out)@ =~= p@);
                }
            }
            n + 1
        },
        None => n,
    }
}

/// The system prompt: the personality, the ALC overview and the active role's
/// text, those present, in that order, separated by `\n\n---\n\n`.
pub fn build_system_prompt(
    agents_found: bool,
    personality: Option<String>,
    alc: Option<String>,
    role: Option<String>,
) -> (r: Result<String, PromptError>)
    ensures
        !agents_found ==> r == Err::<String, PromptError>(PromptError::AgentsNotFound),
        agents_found && present(seq![personality, alc, role]).len() == 0 ==> r == Err::<String, PromptError>(
            PromptError::NoPersonalityFiles,
        ),
        agents_found && present(seq![personality, alc, role]).len() > 0 ==> (r matches Ok(s) && s@
            == joined_parts(present(seq![personality, alc, role]))),
{
    if !agents_found {
        return Err(PromptError::AgentsNotFound);
    }
    let mut out = String::new();
    let ghost none_yet = Seq::<Option<String>>::empty();
    assert(present(none_yet) =~= Seq::<Seq<char>>::empty());
    assert(out@ =~= joined_parts(present(none_yet)));
    let n1 = add_part(&mut out, 0, Ghost(none_yet), &personality);
    let ghost with_personality = none_yet.push(personality);
    let n2 = add_part(&mut out, n1, Ghost(with_personality), &alc);
    let ghost with_alc = with_personality.push(alc);
    let n3 = add_part(&mut out, n2, Ghost(with_alc), &role);
    assert(with_alc.push(role) =~= seq![personality, alc, role]);
    if n3 == 0 {
        Err(PromptError::NoPersonalityFiles)
    } else {
        Ok(out)
    }
}

/// Hex digit value of a character, or -1.
pub open spec fn hex_val(c: char) -> int {
    if '0' <= c && c <= '9' {
        (c as u32) - 48
    } else if 'a' <= c && c <= 'f' {
        (c as u32) - 87
    } else if 'A' <= c && c <= 'F' {
        (c as u32) - 55
    } else {
        -1
    }
}

pub open spec fn hex_value(h: Seq<char>) -> int
    decreases h.len(),
{
    if h.len() == 0 {
        0
    } else {
        hex_value(h.drop_last()) * 16 + hex_val(h.last())
    }
}

/// `h` without a leading `+`.
pub open spec fn sign_stripped(h: Seq<char>) -> Seq<char> {
    if h.len() > 0 && h[0] == '+' {
        h.drop_first()
    } else {
        h
    }
}

pub open spec fn all_hex(d: Seq<char>) -> bool {
    forall|i: int| 0 <= i < d.len() ==> 0 <= #[trigger] hex_val(d[i])
}

/// The number a run of at most four hex digits denotes, with an optional
/// leading `+`, as `u32::from_str_radix(_, 16)` reads it.
pub open spec fn hex_code(h: Seq<char>) -> Option<int> {
    let d = sign_stripped(h);
    if d.len() > 0 && all_hex(d) {
        Some(hex_value(d))
    } else {
        None
    }
}

/// A Unicode scalar value.
pub open spec fn is_scalar(v: int) -> bool {
    (0 <= v && v < 0xD800) || (0xE000 <= v && v <= 0x10FFFF)
}

/// Relies on `char::from_u32`: a character exactly for the Unicode scalar
/// values, and then the character with that code.
#[verifier::external_body]
fn char_from(v: u32) -> (r: Option<char>)
    ensures
        is_scalar(v as int) ==> r == Some(v as char),
        !is_scalar(v as int) ==> r is None,
{
    char::from_u32(v)
}

/// How many characters a `\u` escape at the start of `s` takes as its code: up to four.
pub open spec fn code_len(s: Seq<char>) -> int {
    if s.len() - 2 < 4 {
        s.len() - 2
    } else {
        4
    }
}

/// The first piece of `unescaped(s)` for a non-empty `s`, and how many
/// characters of `s` it stands for.
pub open spec fn first_piece(s: Seq<char>) -> (Seq<char>, int) {
    if s[0] != '\\' {
        (seq![s[0]], 1)
    } else if s.len() == 1 {
        (seq!['\\'], 1)
    } else if s[1] != 'u' {
        (seq!['\\', s[1]], 2)
    } else {
        let h = s.subrange(2, 2 + code_len(s));
        match hex_code(h) {
            Some(v) => if is_scalar(v) {
                (seq![v as char], 2 + code_len(s))
            } else {
                (seq!['\\', 'u'] + h, 2 + code_len(s))
            },
            None => (seq!['\\', 'u'] + h, 2 + code_len(s)),
        }
    }
}

/// `s` with each `\uXXXX` (up to four hex digits) that names a character
/// replaced by it; other escapes are kept as written.
pub open spec fn unescaped(s: Seq<char>) -> Seq<char>
    decreases s.len(),
{
    if s.len() == 0 {
        Seq::empty()
    } else {
        let (piece, used) = first_piece(s);
        piece + unescaped(s.subrange(used, s.len() as int))
    }
}

fn hex_val_exec(c: char) -> (r: i32)
    ensures
        r == hex_val(c),
{
    if '0' <= c && c <= '9' {
        (c as u32 - 48) as i32
    } else if 'a' <= c && c <= 'f' {
        (c as u32 - 87) as i32
    } else if 'A' <= c && c <= 'F' {
        (c as u32 - 55) as i32
    } else {
        -1
    }
}

/// The code of `cs[a..b]`, at most four characters, as `hex_code` reads it.
fn hex_code_exec(cs: &Vec<char>, a: usize, b: usize) -> (r: Option<u32>)
    requires
        a <= b <= cs@.len(),
        b - a <= 4,
    ensures
        match r {
            Some(v) => hex_code(cs@.subrange(a as int, b as int)) == Some(v as int),
            None => hex_code(cs@.subrange(a as int, b as int)) is None,
        },
{
    let ghost h = cs@.subrange(a as int, b as int);
    let start = if a < b && cs[a] == '+' {
        a + 1
    } else {
        a
    };
    let ghost d = cs@.subrange(start as int, b as int);
    assert(d =~= sign_stripped(h));
    if start == b {
        assert(d.len() == 0);
        return None;
    }
    let mut v: u32 = 0;
    let mut k: usize = start;
    while k < b
        invariant
            a <= start <= k <= b <= cs@.len(),
            b - start <= 4,
            d == cs@.subrange(start as int, b as int),
            h == cs@.subrange(a as int, b as int),
            d == sign_stripped(h),
            forall|i: int| 0 <= i < k - start ==> 0 <= #[trigger] hex_val(d[i]),
            v as int == hex_value(cs@.subrange(start as int, k as int)),
            v < pow16(k - start),
        decreases b - k,
    {
        let x = hex_val_exec(cs[k]);
        if x < 0 {
            assert(hex_val(d[k - start]) < 0);
            assert(!all_hex(d));
            return None;
        }
        assert(cs@.subrange(start as int, k + 1).drop_last() =~= cs@.subrange(start as int, k as int));
        assert(v * 16 + x < pow16(k + 1 - start)) by (nonlinear_arith)
            requires
                v < pow16(k - start),
                0 <= x < 16,
                pow16(k + 1 - start) == pow16(k - start) * 16,
        ;
        v = v * 16 + x as u32;
        k = k + 1;
    }
    Some(v)
}

pub open spec fn pow16(n: int) -> int {
    if n <= 0 {
        1
    } else if n == 1 {
        16
    } else if n == 2 {
        256
    } else if n == 3 {
        4096
    } else {
        65536
    }
}

/// Appends the first piece of `unescaped(cs[i..])` to `out`; returns where the rest begins.
fn push_piece(out: &mut String, cs: &Vec<char>, i: usize) -> (r: usize)
    requires
        i < cs@.len(),
    ensures
        final(out)@ == old(out)@ + first_piece(cs@.subrange(i as int, cs@.len() as int)).0,
        r == i + first_piece(cs@.subrange(i as int, cs@.len() as int)).1,
        i < r <= cs@.len(),
{
    let n = cs.len();
    let ghost t = cs@.subrange(i as int, n as int);
    let c = cs[i];
    if c != '\\' {
        push_char(out, c);
        assert(final(out)@ =~= old(out)@ + seq![c]);
        i + 1
    } else if i + 1 == n {
        push_char(out, '\\');
        assert(final(out)@ =~= old(out)@ + seq!['\\']);
        i + 1
    } else if cs[i + 1] != 'u' {
        push_char(out, '\\');
        push_char(out, cs[i + 1]);
        assert(final(out)@ =~= old(out)@ + seq!['\\', cs@[i + 1]]);
        i + 2
    } else {
        let k: usize = if n - (i + 2) < 4 {
            n - (i + 2)
        } else {
            4
        };
        assert(k == code_len(t));
        assert(t.subrange(2, 2 + k) =~= cs@.subrange(i + 2, i + 2 + k));
        let code = hex_code_exec(cs, i + 2, i + 2 + k);
        let ch = match code {
            Some(v) => char_from(v),
            None => None,
        };
        match ch {
            Some(c2) => {
                push_char(out, c2);
                assert(final(out)@ =~= old(out)@ + seq![c2]);
            },
            None => {
                push_char(out, '\\');
                push_char(out, 'u');
                let mut j: usize = i + 2;
                let ghost base = out@;
                while j < i + 2 + k
                    invariant
                        i + 2 <= j <= i + 2 + k <= n == cs@.len(),
                        out@ == base + cs@.subrange(i + 2, j as int),
                    decreases i + 2 + k - j,
                {
                    push_char(out, cs[j]);
                    j = j + 1;
                    assert(out@ =~= base + cs@.subrange(i + 2, j as int));
                }
                assert(out@ =~= old(out)@ + (seq!['\\', 'u'] + cs@.subrange(i + 2, i + 2 + k)));
            },
        }
        i + 2 + k
    }
}

/// `s` with its `\uXXXX` escapes replaced.
pub fn unescape_unicode(s: &str) -> (r: String)
    ensures
        r@ == unescaped(s@),
{
    let cs = chars_of(s);
    let n = cs.len();
    let mut out = String::new();
    let mut i: usize = 0;
    assert(cs@.subrange(0, n as int) =~= cs@);
    while i < n
        invariant
            i <= n == cs@.len(),
            cs@ == s@,
            out@ + unescaped(cs@.subrange(i as int, n as int)) == unescaped(s@),
        decreases n - i,
    {
        let ghost t = cs@.subrange(i as int, n as int);
        let ghost before = out@;
        let next = push_piece(&mut out, &cs, i);
        assert(t.subrange(first_piece(t).1, t.len() as int) =~= cs@.subrange(next as int, n as int));
        assert(out@ + unescaped(cs@.subrange(next as int, n as int)) =~= before + unescaped(t));
        i = next;
    }
    assert(cs@.subrange(i as int, n as int) =~= Seq::<char>::empty());
    assert(out@ + Seq::<char>::empty() =~= out@);
    out
}

/// The front matter and the body of an agent file: the text after leading
/// whitespace must open with `---`, then (after any carriage returns) a line
/// feed; the front matter runs to the first `\n---`, and the body follows it,
/// without its leading carriage returns and line feeds.
pub open spec fn front_matter(content: Seq<char>) -> Option<(Seq<char>, Seq<char>)> {
    let t = skip_lead(content, 0);
    if !str_prefix(t, "---"@) {
        None
    } else {
        let a = skip_lead(t.subrange(3, t.len() as int), 1);
        if !(a.len() > 0 && a[0] == '\n') {
            None
        } else {
            let b = a.drop_first();
            if exists|i: int| first_occurrence(b, "\n---"@, i) {
                let i = choose|i: int| first_occurrence(b, "\n---"@, i);
                Some((b.subrange(0, i), skip_lead(b.subrange(i + 4, b.len() as int), 2)))
            } else {
                None
            }
        }
    }
}

/// The key and value of a front-matter line `key: value`: both trimmed, and
/// the value without surrounding double quotes.
pub open spec fn field_of(line: Seq<char>) -> Option<(Seq<char>, Seq<char>)> {
    let t = trim_str(line);
    if exists|j: int| first_char_at(t, ':', j) {
        let j = choose|j: int| first_char_at(t, ':', j);
        Some(
            (
                trim_str(t.subrange(0, j)),
                skip_trail(skip_lead(trim_str(t.subrange(j + 1, t.len() as int)), 3), 3),
            ),
        )
    } else {
        None
    }
}

/// The fields an agent file sets; the last line for a key wins.
pub struct AgentFields {
    pub id: Seq<char>,
    pub name: Seq<char>,
    pub role: Seq<char>,
    pub icon: Seq<char>,
    pub description: Seq<char>,
}

pub open spec fn no_fields() -> AgentFields {
    AgentFields {
        id: Seq::empty(),
        name: Seq::empty(),
        role: Seq::empty(),
        icon: Seq::empty(),
        description: Seq::empty(),
    }
}

pub open spec fn apply_field(f: AgentFields, line: Seq<char>) -> AgentFields {
    match field_of(line) {
        Some((k, v)) => if k == "id"@ {
            AgentFields { id: v, ..f }
        } else if k == "name"@ {
            AgentFields { name: v, ..f }
        } else if k == "role"@ {
            AgentFields { role: v, ..f }
        } else if k == "icon"@ {
            AgentFields { icon: unescaped(v), ..f }
        } else if k == "description"@ {
            AgentFields { description: v, ..f }
        } else {
            f
        },
        None => f,
    }
}

pub open spec fn fields_of(lines: Seq<Seq<char>>) -> AgentFields
    decreases lines.len(),
{
    if lines.len() == 0 {
        no_fields()
    } else {
        apply_field(fields_of(lines.drop_last()), lines.last())
    }
}

/// Where the front matter and the body of `cs` are: the front matter's
/// bounds and the body's start.
fn locate_front_matter(cs: &Vec<char>) -> (r: Option<(usize, usize, usize)>)
    ensures
        match r {
            Some((fa, fb, bs)) => fa <= fb <= cs@.len() && bs <= cs@.len() && front_matter(cs@) == Some(
                (cs@.subrange(fa as int, fb as int), cs@.subrange(bs as int, cs@.len() as int)),
            ),
            None => front_matter(cs@) is None,
        },
{
    let n = cs.len();
    assert(cs@.subrange(0, n as int) =~= cs@);
    let s0 = skip_from(cs, 0, 0);
    let ghost t = cs@.subrange(s0 as int, n as int);
    let dashes = chars_of("---");
    proof {
        reveal_strlit("---");
        reveal_strlit("\n---");
    }
    assert(dashes@.len() == 3);
    if n - s0 < 3 || !matches_here(cs, s0, &dashes) {
        proof {
            if s0 + 3 <= n {
                assert(t.subrange(0, 3) =~= cs@.subrange(s0 as int, s0 + 3));
            }
        }
        return None;
    }
    assert(t.subrange(0, 3) =~= cs@.subrange(s0 as int, s0 + 3));
    let p = skip_from(cs, s0 + 3, 1);
    assert(t.subrange(3, t.len() as int) =~= cs@.subrange(s0 + 3, n as int));
    let ghost a = cs@.subrange(p as int, n as int);
    if p >= n || cs[p] != '\n' {
        return None;
    }
    let b0 = p + 1;
    let ghost b = cs@.subrange(b0 as int, n as int);
    assert(a.drop_first() =~= b);
    let pat = chars_of("\n---");
    assert(pat@.len() == 4);
    match find_from(cs, b0, &pat) {
        None => None,
        Some(i) => {
            let ghost j = i - b0;
            proof {
                assert forall|k: int| first_occurrence(b, pat@, k) implies k == j by {
                    if k < j {
                        assert(b.subrange(k, k + pat@.len()) != pat@);
                    } else if k > j {
                        assert(b.subrange(j, j + pat@.len()) == pat@);
                    }
                }
            }
            let bs = skip_from(cs, i + 4, 2);
            assert(b.subrange(0, j) =~= cs@.subrange(b0 as int, i as int));
            assert(b.subrange(j + 4, b.len() as int) =~= cs@.subrange(i + 4, n as int));
            Some((b0, i, bs))
        },
    }
}

pub open spec fn agent_view(a: AgentPrompt) -> (AgentFields, Seq<char>) {
    (
        AgentFields {
            id: a.id@,
            name: a.name@,
            role: a.role@,
            icon: a.icon@,
            description: a.description@,
        },
        a.prompt@,
    )
}

/// An agent file's fields and prompt: none where it has no front matter or
/// its front matter sets no `id`.
pub open spec fn agent_of(content: Seq<char>) -> Option<(AgentFields, Seq<char>)> {
    match front_matter(content) {
        Some((fm, body)) => {
            let f = fields_of(lines_of(fm));
            if f.id.len() == 0 {
                None
            } else {
                Some((f, body))
            }
        },
        None => None,
    }
}

fn key_value(fm: &Vec<char>, a0: usize, b0: usize) -> (r: Option<(usize, usize, usize, usize)>)
    requires
        a0 <= b0 <= fm@.len(),
    ensures
        match r {
            Some((ka, kb, va, vb)) => ka <= kb <= fm@.len() && va <= vb <= fm@.len() && field_of(
                fm@.subrange(a0 as int, b0 as int),
            ) == Some((fm@.subrange(ka as int, kb as int), fm@.subrange(va as int, vb as int))),
            None => field_of(fm@.subrange(a0 as int, b0 as int)) is None,
        },
{
    let (a, b) = trim_range(fm, a0, b0);
    let ghost t = fm@.subrange(a as int, b as int);
    match first_in(fm, a, b, ':') {
        None => None,
        Some(j) => {
            proof {
                assert forall|k: int| first_char_at(t, ':', k) implies k == j by {
                    if k < j {
                        assert(t[k] != ':');
                    } else if k > j {
                        assert(t[j as int] != ':');
                    }
                }
            }
            let (ka, kb) = trim_range(fm, a, a + j);
            assert(t.subrange(0, j as int) =~= fm@.subrange(a as int, a + j));
            let (v1, v2) = trim_range(fm, a + j + 1, b);
            assert(t.subrange(j + 1, t.len() as int) =~= fm@.subrange(a + j + 1, b as int));
            let va = skip_range(fm, v1, v2, 3);
            let vb = skip_back(fm, va, v2, 3);
            Some((ka, kb, va, vb))
        },
    }
}

/// Parses an agent file: its front matter's `id`, `name`, `role`, `icon`
/// (with `\uXXXX` escapes replaced) and `description`, and its body as the prompt.
pub fn parse_agent_file(content: &str) -> (r: Option<AgentPrompt>)
    ensures
        match r {
            Some(a) => agent_of(content@) == Some(agent_view(a)),
            None => agent_of(content@) is None,
        },
{
    let cs = chars_of(content);
    let (fa, fb, bs) = match locate_front_matter(&cs) {
        Some(x) => x,
        None => {
            return None;
        },
    };
    let fm = chars_range(&cs, fa, fb);
    let ranges = line_ranges(&fm);
    let ghost ls = lines_of(fm@);
    let mut id = String::new();
    let mut name = String::new();
    let mut role = String::new();
    let mut icon = String::new();
    let mut description = String::new();
    let mut i: usize = 0;
    assert(ls.subrange(0, 0) =~= Seq::<Seq<char>>::empty());
    while i < ranges.len()
        invariant
            i <= ranges@.len() == ls.len(),
            ls == lines_of(fm@),
            forall|k: int| 0 <= k < ranges@.len() ==> (#[trigger] ranges@[k]).0 <= ranges@[k].1 <= fm@.len(),
            forall|k: int| 0 <= k < ranges@.len() ==> #[trigger] range_view(fm@, ranges@[k]) == ls[k],
            fields_of(ls.subrange(0, i as int)) == (AgentFields {
                id: id@,
                name: name@,
                role: role@,
                icon: icon@,
                description: description@,
            }),
        decreases ranges@.len() - i,
    {
        let (a0, b0) = ranges[i];
        assert(range_view(fm@, ranges@[i as int]) == ls[i as int]);
        assert(ls.subrange(0, i + 1).drop_last() =~= ls.subrange(0, i as int));
        assert(ls.subrange(0, i + 1).last() == ls[i as int]);
        match key_value(&fm, a0, b0) {
            None => {},
            Some((ka, kb, va, vb)) => {
                let v = string_of(&fm, va, vb);
                if range_is(&fm, ka, kb, "id") {
                    id = v;
                } else if range_is(&fm, ka, kb, "name") {
                    name = v;
                } else if range_is(&fm, ka, kb, "role") {
                    role = v;
                } else if range_is(&fm, ka, kb, "icon") {
                    icon = unescape_unicode(v.as_str());
                } else if range_is(&fm, ka, kb, "description") {
                    description = v;
                }
            },
        }
        i = i + 1;
    }
    assert(ls.subrange(0, i as int) =~= ls);
    if id.as_str().unicode_len() == 0 {
        return None;
    }
    let prompt = string_of(&cs, bs, cs.len());
    Some(AgentPrompt { id, name, role, icon, description, prompt })
}

/// The prompt of an agent file as written: its body where it has front
/// matter, else the whole text.
pub fn prompt_body(content: String) -> (r: String)
    ensures
        match front_matter(content@) {
            Some((_, body)) => r@ == body,
            None => r@ == content@,
        },
{
    let cs = chars_of(content.as_str());
    match locate_front_matter(&cs) {
        Some((_, _, bs)) => string_of(&cs, bs, cs.len()),
        None => content,
    }
}

} // verus!
