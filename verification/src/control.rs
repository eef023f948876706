//! Control nodes: subprocess-backed graph nodes, their definitions,
//! errors, and the capture of a subprocess's output.
use vstd::prelude::*;
use vstd::string::*;
use crate::graph::artifact::Artifact;
use crate::graph::node::{Emit, NodeError};
use crate::graph::port::PortDef;
use crate::graph::artifact::copy_json;
use crate::json::{data_member, json_data, json_member, json_null, json_string, parse_json, parsed_json, JsonData};
use crate::text::{chars_of, decimal, decimal_text, signed_decimal, signed_text};

verus! {

/// Maximum bytes kept of a subprocess's standard output.
pub const MAX_OUTPUT_BYTES: usize = 65536;

/// Definition of a control node: a subprocess run for each activation.
#[derive(Debug)]
pub struct ControlNodeDef {
    /// Node name.
    pub name: String,
    /// Working directory of the subprocess.
    pub work_dir: String,
    /// Command line: program, then arguments.
    pub command: Vec<String>,
    /// Input port declarations.
    pub inputs: Vec<PortDef>,
    /// Output port declarations.
    pub outputs: Vec<PortDef>,
    /// Seconds the subprocess may run.
    pub timeout_secs: u32,
}

/// Errors from running a control node's subprocess.
#[derive(Debug)]
pub enum ControlError {
    /// The process could not be started.
    Spawn {
        /// The program that failed to start.
        binary: String,
        /// The operating system's error text.
        source: String,
    },
    /// Writing the call envelope to the process failed.
    StdinWrite(String),
    /// Waiting for the process failed.
    Wait(String),
    /// The process ran past its time limit.
    Timeout {
        /// The time limit in seconds.
        timeout_secs: u32,
    },
}

/// The display text of a control error.
pub open spec fn control_error_text(e: ControlError) -> Seq<char> {
    match e {
        ControlError::Spawn { binary, source } => "Failed to spawn process '"@ + binary@ + "': "@ + source@,
        ControlError::StdinWrite(m) => "Failed to write to process stdin: "@ + m@,
        ControlError::Wait(m) => "Failed to wait for process: "@ + m@,
        ControlError::Timeout { timeout_secs } => "Process timed out after "@ + decimal_text(
            timeout_secs as nat,
        ) + "s"@,
    }
}

impl ControlError {
    /// The error's display text.
    pub fn to_string(&self) -> (r: String)
        ensures
            r@ == control_error_text(*self),
    {
        match self {
            ControlError::Spawn { binary, source } => {
                let mut s = String::from_str("Failed to spawn process '");
                s.append(binary.as_str());
                s.append("': ");
                s.append(source.as_str());
                s
            },
            ControlError::StdinWrite(m) => {
                let mut s = String::from_str("Failed to write to process stdin: ");
                s.append(m.as_str());
                s
            },
            ControlError::Wait(m) => {
                let mut s = String::from_str("Failed to wait for process: ");
                s.append(m.as_str());
                s
            },
            ControlError::Timeout { timeout_secs } => {
                let mut s = String::from_str("Process timed out after ");
                s.append(decimal(*timeout_secs as u64).as_str());
                s.append("s");
                s
            },
        }
    }
}

/// The text that std's lossy UTF-8 decoding makes of `b`: valid sequences
/// decoded, each invalid one replaced by U+FFFD.
pub uninterp spec fn lossy_text(b: Seq<u8>) -> Seq<char>;

/// Decode bytes as UTF-8, replacing invalid sequences.
///
/// Calls `String::from_utf8_lossy`; the contract names its result.
#[verifier::external_body]
fn utf8_lossy(bytes: &[u8]) -> (r: String)
    ensures
        r@ == lossy_text(bytes@),
{
    String::from_utf8_lossy(bytes).into_owned()
}

/// `c` is white space in Unicode's sense (what `char::is_whitespace`
/// accepts).
pub open spec fn is_space(c: char) -> bool {
    let u = c as u32;
    (0x9 <= u <= 0xD) || u == 0x20 || u == 0x85 || u == 0xA0 || u == 0x1680 || (0x2000 <= u <= 0x200A)
        || u == 0x2028 || u == 0x2029 || u == 0x202F || u == 0x205F || u == 0x3000
}

/// `s` without its leading and trailing white space: everything from its
/// first non-space character through its last one.
pub open spec fn trimmed(s: Seq<char>) -> Seq<char> {
    if forall|i: int| 0 <= i < s.len() ==> is_space(#[trigger] s[i]) {
        Seq::empty()
    } else {
        let a = choose|a: int|
            0 <= a < s.len() && !is_space(s[a]) && forall|j: int| 0 <= j < a ==> is_space(#[trigger] s[j]);
        let b = choose|b: int|
            0 <= b < s.len() && !is_space(s[b]) && forall|j: int| b < j < s.len() ==> is_space(#[trigger] s[j]);
        s.subrange(a, b + 1)
    }
}

/// The number of bytes UTF-8 takes for `c`.
pub open spec fn utf8_width(c: char) -> nat {
    let u = c as u32;
    if u < 0x80 {
        1
    } else if u < 0x800 {
        2
    } else if u < 0x10000 {
        3
    } else {
        4
    }
}

/// The number of bytes UTF-8 takes for `s`.
pub open spec fn utf8_len(s: Seq<char>) -> nat
    decreases s.len(),
{
    if s.len() == 0 {
        0
    } else {
        utf8_len(s.drop_last()) + utf8_width(s.last())
    }
}

/// The number of leading characters of `s` that fit in `budget` bytes.
pub open spec fn fitting(s: Seq<char>, budget: nat) -> nat
    decreases s.len(),
{
    if s.len() == 0 || utf8_width(s[0]) > budget {
        0
    } else {
        1 + fitting(s.drop_first(), (budget - utf8_width(s[0])) as nat)
    }
}

/// `t` kept whole when it fits in `MAX_OUTPUT_BYTES` bytes; otherwise the
/// longest prefix that fits, cut at a character boundary, and a truncation
/// marker.
pub open spec fn capped(t: Seq<char>) -> Seq<char> {
    if utf8_len(t) > MAX_OUTPUT_BYTES {
        t.take(fitting(t, MAX_OUTPUT_BYTES as nat) as int) + "\n[truncated]"@
    } else {
        t
    }
}

/// Whether `c` is white space.
fn space(c: char) -> (r: bool)
    ensures
        r == is_space(c),
{
    let u = c as u32;
    (0x9 <= u && u <= 0xD) || u == 0x20 || u == 0x85 || u == 0xA0 || u == 0x1680 || (0x2000 <= u && u
        <= 0x200A) || u == 0x2028 || u == 0x2029 || u == 0x202F || u == 0x205F || u == 0x3000
}

/// The UTF-8 width of `c`.
fn width(c: char) -> (r: usize)
    ensures
        r == utf8_width(c),
{
    let u = c as u32;
    if u < 0x80 {
        1
    } else if u < 0x800 {
        2
    } else if u < 0x10000 {
        3
    } else {
        4
    }
}

/// A text with only white space trims to nothing.
proof fn lemma_trimmed_blank(s: Seq<char>)
    requires
        forall|i: int| 0 <= i < s.len() ==> is_space(#[trigger] s[i]),
    ensures
        trimmed(s) == Seq::<char>::empty(),
{
}

/// The trimmed text runs from the first non-space character through the
/// last one.
proof fn lemma_trimmed_span(s: Seq<char>, a: int, b: int)
    requires
        0 <= a < b <= s.len(),
        forall|j: int| 0 <= j < a ==> is_space(#[trigger] s[j]),
        forall|j: int| b <= j < s.len() ==> is_space(#[trigger] s[j]),
        !is_space(s[a]),
        !is_space(s[b - 1]),
    ensures
        trimmed(s) == s.subrange(a, b),
{
    assert(!(forall|i: int| 0 <= i < s.len() ==> is_space(#[trigger] s[i])));
    let a2 = choose|a2: int|
        0 <= a2 < s.len() && !is_space(s[a2]) && forall|j: int| 0 <= j < a2 ==> is_space(#[trigger] s[j]);
    let b2 = choose|b2: int|
        0 <= b2 < s.len() && !is_space(s[b2]) && forall|j: int| b2 < j < s.len() ==> is_space(#[trigger] s[j]);
    assert(a2 == a) by {
        if a2 < a {
            assert(is_space(s[a2]));
        } else if a2 > a {
            assert(is_space(s[a]));
        }
    }
    assert(b2 == b - 1) by {
        if b2 < b - 1 {
            assert(is_space(s[b - 1]));
        } else if b2 > b - 1 {
            assert(is_space(s[b2]));
        }
    }
}

/// The bounds of `trimmed(cs[lo..hi])` within `cs`.
fn trim_range(cs: &Vec<char>, lo: usize, hi: usize) -> (r: (usize, usize))
    requires
        lo <= hi <= cs@.len(),
    ensures
        lo <= r.0 <= r.1 <= hi,
        cs@.subrange(r.0 as int, r.1 as int) == trimmed(cs@.subrange(lo as int, hi as int)),
{
    let ghost s = cs@.subrange(lo as int, hi as int);
    let mut a: usize = lo;
    while a < hi && space(cs[a])
        invariant
            lo <= a <= hi <= cs@.len(),
            forall|j: int| lo <= j < a ==> is_space(#[trigger] cs@[j]),
        decreases hi - a,
    {
        a = a + 1;
    }
    if a == hi {
        proof {
            assert forall|i: int| 0 <= i < s.len() implies is_space(#[trigger] s[i]) by {
                assert(s[i] == cs@[lo + i]);
            }
            lemma_trimmed_blank(s);
            assert(cs@.subrange(lo as int, lo as int) =~= Seq::<char>::empty());
        }
        return (lo, lo);
    }
    let mut b: usize = hi;
    while b > a + 1 && space(cs[b - 1])
        invariant
            lo <= a < hi <= cs@.len(),
            a + 1 <= b <= hi,
            forall|j: int| b <= j < hi ==> is_space(#[trigger] cs@[j]),
        decreases b,
    {
        b = b - 1;
    }
    proof {
        assert forall|j: int| 0 <= j < a - lo implies is_space(#[trigger] s[j]) by {
            assert(s[j] == cs@[lo + j]);
        }
        assert forall|j: int| b - lo <= j < s.len() implies is_space(#[trigger] s[j]) by {
            assert(s[j] == cs@[lo + j]);
        }
        assert(s[a - lo] == cs@[a as int]);
        assert(s[b - lo - 1] == cs@[b - 1]);
        lemma_trimmed_span(s, a - lo, b - lo);
        assert(cs@.subrange(a as int, b as int) =~= s.subrange(a - lo, b - lo));
    }
    (a, b)
}

/// The bounds of `trimmed(cs)` within `cs`.
fn trim_bounds(cs: &Vec<char>) -> (r: (usize, usize))
    ensures
        r.0 <= r.1 <= cs@.len(),
        cs@.subrange(r.0 as int, r.1 as int) == trimmed(cs@),
{
    let r = trim_range(cs, 0, cs.len());
    assert(cs@.subrange(0, cs@.len() as int) =~= cs@);
    r
}

/// `s` cut at each newline into its lines; text after the last newline
/// forms the last line, which is empty when `s` ends with a newline.
pub open spec fn split_lines(s: Seq<char>) -> Seq<Seq<char>>
    decreases s.len(),
{
    if s.len() == 0 {
        seq![Seq::empty()]
    } else {
        let r = split_lines(s.drop_last());
        if s.last() == '\n' {
            r.push(Seq::empty())
        } else {
            r.update(r.len() - 1, r.last().push(s.last()))
        }
    }
}

/// The lines of `ls`, each trimmed of white space, without the empty ones.
pub open spec fn content_lines(ls: Seq<Seq<char>>) -> Seq<Seq<char>>
    decreases ls.len(),
{
    if ls.len() == 0 {
        Seq::empty()
    } else {
        let rest = content_lines(ls.drop_last());
        let t = trimmed(ls.last());
        if t.len() > 0 {
            rest.push(t)
        } else {
            rest
        }
    }
}

proof fn lemma_split_lines_nonempty(s: Seq<char>)
    ensures
        split_lines(s).len() >= 1,
    decreases s.len(),
{
    if s.len() > 0 {
        lemma_split_lines_nonempty(s.drop_last());
    }
}

/// The texts of a list of strings.
pub open spec fn texts(v: Seq<String>) -> Seq<Seq<char>> {
    v.map_values(|s: String| s@)
}

/// Splitting one character further: a newline closes the current line,
/// any other character extends it.
proof fn lemma_split_step(s: Seq<char>, done: Seq<Seq<char>>, line: Seq<char>, c: char)
    requires
        split_lines(s) == done.push(line),
    ensures
        split_lines(s.push(c)) == if c == '\n' {
            done.push(line).push(Seq::<char>::empty())
        } else {
            done.push(line.push(c))
        },
{
    assert(s.push(c).drop_last() =~= s);
    if c != '\n' {
        assert(done.push(line).update(done.len() as int, line.push(c)) =~= done.push(line.push(c)));
    }
}

/// Adding a line adds its trimmed text when that is not empty.
proof fn lemma_content_push(done: Seq<Seq<char>>, line: Seq<char>)
    ensures
        content_lines(done.push(line)) == if trimmed(line).len() > 0 {
            content_lines(done).push(trimmed(line))
        } else {
            content_lines(done)
        },
{
    assert(done.push(line).drop_last() =~= done);
}

/// The non-empty lines of a control node's standard output, each trimmed:
/// one emit envelope per line.
#[verifier::spinoff_prover]
#[verifier::rlimit(40)]
pub fn envelope_lines(stdout: &str) -> (r: Vec<String>)
    ensures
        texts(r@) == content_lines(split_lines(stdout@)),
{
    let cs = chars_of(stdout);
    let n = cs.len();
    let mut out: Vec<String> = Vec::new();
    let mut start: usize = 0;
    let mut i: usize = 0;
    let ghost mut done: Seq<Seq<char>> = Seq::empty();
    proof {
        assert(cs@.subrange(0, 0) =~= Seq::<char>::empty());
        assert(split_lines(Seq::<char>::empty()) =~= done.push(Seq::<char>::empty()));
        assert(texts(out@) =~= Seq::<Seq<char>>::empty());
    }
    while i < n
        invariant
            0 <= start <= i <= n,
            n == cs@.len(),
            cs@ == stdout@,
            texts(out@) == content_lines(done),
            split_lines(cs@.subrange(0, i as int)) == done.push(cs@.subrange(start as int, i as int)),
        decreases n - i,
    {
        let ghost line = cs@.subrange(start as int, i as int);
        proof {
            assert(cs@.subrange(0, i + 1) =~= cs@.subrange(0, i as int).push(cs@[i as int]));
            lemma_split_step(cs@.subrange(0, i as int), done, line, cs@[i as int]);
        }
        if cs[i] == '\n' {
            let (a, b) = trim_range(&cs, start, i);
            let ghost before = out@;
            if a < b {
                let text = String::from_str(stdout.substring_char(a, b));
                out.push(text);
            }
            proof {
                lemma_content_push(done, line);
                assert(texts(out@) =~= if a < b {
                    texts(before).push(cs@.subrange(a as int, b as int))
                } else {
                    texts(before)
                });
                done = done.push(line);
                assert(cs@.subrange(i + 1, i + 1) =~= Seq::<char>::empty());
            }
            start = i + 1;
        } else {
            proof {
                assert(cs@.subrange(start as int, i + 1) =~= line.push(cs@[i as int]));
            }
        }
        i = i + 1;
    }
    let (a, b) = trim_range(&cs, start, n);
    let ghost before = out@;
    if a < b {
        let text = String::from_str(stdout.substring_char(a, b));
        out.push(text);
    }
    proof {
        assert(cs@.subrange(0, n as int) =~= cs@);
        lemma_content_push(done, cs@.subrange(start as int, n as int));
        assert(texts(out@) =~= if a < b {
            texts(before).push(cs@.subrange(a as int, b as int))
        } else {
            texts(before)
        });
    }
    out
}

proof fn lemma_utf8_len_take(s: Seq<char>, k: int)
    requires
        0 <= k < s.len(),
    ensures
        utf8_len(s.take(k + 1)) == utf8_len(s.take(k)) + utf8_width(s[k]),
{
    assert(s.take(k + 1).drop_last() =~= s.take(k));
}

proof fn lemma_fitting(s: Seq<char>, budget: nat, k: nat)
    requires
        k <= s.len(),
        utf8_len(s.take(k as int)) <= budget,
        k == s.len() || utf8_len(s.take(k as int)) + utf8_width(s[k as int]) > budget,
    ensures
        fitting(s, budget) == k,
    decreases k,
{
    if k == 0 {
        if s.len() > 0 {
            assert(s.take(0) =~= Seq::<char>::empty());
        }
    } else {
        let w = utf8_width(s[0]);
        lemma_utf8_len_prefix_first(s, k as int);
        assert(s.take(1).drop_last() =~= Seq::<char>::empty());
        let t = s.drop_first();
        assert(t.take(k - 1) =~= s.take(k as int).drop_first());
        if k < s.len() {
            assert(t[k - 1] == s[k as int]);
        }
        lemma_fitting(t, (budget - w) as nat, (k - 1) as nat);
    }
}

proof fn lemma_utf8_len_prefix_first(s: Seq<char>, k: int)
    requires
        0 < k <= s.len(),
    ensures
        utf8_len(s.take(k)) == utf8_width(s[0]) + utf8_len(s.take(k).drop_first()),
    decreases k,
{
    if k > 1 {
        lemma_utf8_len_prefix_first(s, k - 1);
        assert(s.take(k).drop_last() =~= s.take(k - 1));
        assert(s.take(k).drop_first().drop_last() =~= s.take(k - 1).drop_first());
    } else {
        assert(s.take(1).drop_last() =~= Seq::<char>::empty());
        assert(s.take(1).drop_first() =~= Seq::<char>::empty());
    }
}

/// Captured output of a subprocess invocation.
#[derive(Debug)]
pub struct ProcessOutput {
    /// Standard output, trimmed and capped at `MAX_OUTPUT_BYTES`.
    pub stdout: String,
    /// Standard error: in full on success, its first 500 characters on
    /// failure.
    pub stderr: String,
    /// Exit code, or `None` when the process ended by a signal.
    pub exit_code: Option<i32>,
    /// Whether the process exited successfully.
    pub success: bool,
}

impl ProcessOutput {
    /// Build the captured output from raw standard output and error bytes
    /// and the exit status: both are decoded as UTF-8 with invalid
    /// sequences replaced; standard output is trimmed of white space and
    /// capped at `MAX_OUTPUT_BYTES` bytes on a character boundary; standard
    /// error is kept in full on success and cut to its first 500 characters
    /// on failure.
    pub fn from_parts(stdout: Vec<u8>, stderr: Vec<u8>, exit_code: Option<i32>, success: bool) -> (r: Self)
        ensures
            r.stdout@ == capped(trimmed(lossy_text(stdout@))),
            success ==> r.stderr@ == lossy_text(stderr@),
            !success ==> r.stderr@ == first_chars(lossy_text(stderr@), 500),
            r.exit_code == exit_code,
            r.success == success,
    {
        let out_text = utf8_lossy(stdout.as_slice());
        let err_text = utf8_lossy(stderr.as_slice());
        let cs = chars_of(out_text.as_str());
        let (a, b) = trim_bounds(&cs);
        let k = fit_end(&cs, a, b);
        let ghost t = cs@.subrange(a as int, b as int);
        let stdout_text = if k < b {
            let mut s = String::from_str(out_text.as_str().substring_char(a, k));
            s.append("\n[truncated]");
            proof {
                assert(cs@.subrange(a as int, k as int) =~= t.take((k - a) as int));
            }
            s
        } else {
            String::from_str(out_text.as_str().substring_char(a, b))
        };
        let err_kept = if success {
            err_text
        } else {
            first_chars_of(&err_text, 500)
        };
        ProcessOutput { stdout: stdout_text, stderr: err_kept, exit_code, success }
    }
}

/// The first `n` characters of `s`, or all of it when it is shorter.
fn first_chars_of(s: &String, n: usize) -> (r: String)
    ensures
        r@ == first_chars(s@, n as nat),
{
    let len = s.as_str().unicode_len();
    if len <= n {
        s.clone()
    } else {
        let r = String::from_str(s.as_str().substring_char(0, n));
        assert(s@.subrange(0, n as int) =~= s@.take(n as int));
        r
    }
}

/// The end of the longest prefix of `cs[a..b]` that fits in
/// `MAX_OUTPUT_BYTES` bytes; it is `b` exactly when all of it fits.
fn fit_end(cs: &Vec<char>, a: usize, b: usize) -> (k: usize)
    requires
        a <= b <= cs@.len(),
    ensures
        a <= k <= b,
        k - a == fitting(cs@.subrange(a as int, b as int), MAX_OUTPUT_BYTES as nat),
        k < b <==> utf8_len(cs@.subrange(a as int, b as int)) > MAX_OUTPUT_BYTES,
{
    let ghost t = cs@.subrange(a as int, b as int);
    let mut used: usize = 0;
    let mut k: usize = a;
    assert(t.take(0) =~= Seq::<char>::empty());
    while k < b && width(cs[k]) <= MAX_OUTPUT_BYTES - used
        invariant
            a <= k <= b <= cs@.len(),
            t == cs@.subrange(a as int, b as int),
            used == utf8_len(t.take(k - a)),
            used <= MAX_OUTPUT_BYTES,
        decreases b - k,
    {
        proof {
            lemma_utf8_len_take(t, k - a);
            assert(t[k - a] == cs@[k as int]);
        }
        used = used + width(cs[k]);
        k = k + 1;
    }
    proof {
        if k < b {
            assert(t[k - a] == cs@[k as int]);
            lemma_utf8_len_take(t, k - a);
            lemma_utf8_len_mono(t, k - a + 1);
        } else {
            assert(t.take(t.len() as int) =~= t);
        }
        lemma_fitting(t, MAX_OUTPUT_BYTES as nat, (k - a) as nat);
    }
    k
}

/// A longer prefix takes at least as many bytes.
proof fn lemma_utf8_len_mono(s: Seq<char>, k: int)
    requires
        0 <= k <= s.len(),
    ensures
        utf8_len(s.take(k)) <= utf8_len(s),
    decreases s.len() - k,
{
    if k < s.len() {
        lemma_utf8_len_take(s, k);
        lemma_utf8_len_mono(s, k + 1);
    } else {
        assert(s.take(k) =~= s);
    }
}

/// The first `n` characters of `s` (all of them when it is shorter).
pub open spec fn first_chars(s: Seq<char>, n: nat) -> Seq<char> {
    if s.len() <= n {
        s
    } else {
        s.take(n as int)
    }
}

/// The error text of a control node whose subprocess failed: its name, the
/// exit code (-1 when the process ended by a signal) and the first 500
/// characters of its standard error.
pub open spec fn exit_failure_text(name: Seq<char>, exit_code: Option<i32>, stderr: Seq<char>) -> Seq<char> {
    let code: int = match exit_code {
        Some(c) => c as int,
        None => -1,
    };
    "Control node '"@ + name + "' exited with code "@ + signed_text(code) + ": "@ + first_chars(stderr, 500)
}

/// Describe a failed control-node subprocess.
pub fn exit_failure(name: &str, output: &ProcessOutput) -> (r: String)
    ensures
        r@ == exit_failure_text(name@, output.exit_code, output.stderr@),
{
    let code: i64 = match output.exit_code {
        Some(c) => c as i64,
        None => -1,
    };
    let n = output.stderr.as_str().unicode_len();
    let keep = if n <= 500 {
        n
    } else {
        500
    };
    let mut s = String::from_str("Control node '");
    s.append(name);
    s.append("' exited with code ");
    s.append(signed_decimal(code).as_str());
    s.append(": ");
    s.append(output.stderr.as_str().substring_char(0, keep));
    proof {
        if n > 500 {
            assert(output.stderr@.subrange(0, 500) =~= output.stderr@.take(500));
        } else {
            assert(output.stderr@.subrange(0, n as int) =~= output.stderr@);
        }
    }
    s
}

/// The environment of one control-node invocation, as (name, value)
/// texts: session, node, round, node configuration, and the database path
/// when there is one.
pub open spec fn control_env_texts(
    session: Seq<char>,
    node_id: Seq<char>,
    round: u32,
    config_json: Seq<char>,
    db_path: Option<Seq<char>>,
) -> Seq<(Seq<char>, Seq<char>)> {
    let base = seq![
        ("EUREKA_SESSION_ID"@, session),
        ("EUREKA_NODE_ID"@, node_id),
        ("EUREKA_ROUND"@, decimal_text(round as nat)),
        ("EUREKA_CONFIG"@, config_json),
    ];
    match db_path {
        Some(p) => base.push(("EUREKA_DB_PATH"@, p)),
        None => base,
    }
}

/// The (name, value) texts of a list of pairs.
pub open spec fn env_texts(v: Seq<(String, String)>) -> Seq<(Seq<char>, Seq<char>)> {
    v.map_values(|p: (String, String)| (p.0@, p.1@))
}

/// Build the environment of one control-node invocation.
pub fn control_env(session: &str, node_id: &str, round: u32, config_json: &str, db_path: Option<&str>) -> (r: Vec<
    (String, String),
>)
    ensures
        env_texts(r@) == control_env_texts(
            session@,
            node_id@,
            round,
            config_json@,
            match db_path {
                Some(p) => Some(p@),
                None => None,
            },
        ),
{
    let mut env: Vec<(String, String)> = Vec::new();
    env.push((String::from_str("EUREKA_SESSION_ID"), String::from_str(session)));
    env.push((String::from_str("EUREKA_NODE_ID"), String::from_str(node_id)));
    env.push((String::from_str("EUREKA_ROUND"), decimal(round as u64)));
    env.push((String::from_str("EUREKA_CONFIG"), String::from_str(config_json)));
    match db_path {
        Some(p) => {
            env.push((String::from_str("EUREKA_DB_PATH"), String::from_str(p)));
        },
        None => {},
    }
    proof {
        let expect = control_env_texts(
            session@,
            node_id@,
            round,
            config_json@,
            match db_path {
                Some(p) => Some(p@),
                None => None,
            },
        );
        assert(env_texts(env@) =~= expect);
    }
    env
}

/// Split a control node's command line into its program and arguments; an
/// empty command line is an internal error.
pub fn split_command(command: &Vec<String>) -> (r: Result<(String, Vec<String>), NodeError>)
    ensures
        command@.len() == 0 <==> r is Err,
        r matches Err(e) ==> (e matches NodeError::Internal(m) && m@ == "Control node command array is empty"@),
        r matches Ok((program, args)) ==> program == command@[0] && args@ == command@.drop_first(),
{
    if command.len() == 0 {
        return Err(NodeError::Internal(String::from_str("Control node command array is empty")));
    }
    let program = command[0].clone();
    let mut args: Vec<String> = Vec::new();
    let mut i: usize = 1;
    while i < command.len()
        invariant
            1 <= i <= command@.len(),
            args@ == command@.subrange(1, i as int),
        decreases command@.len() - i,
    {
        args.push(command[i].clone());
        assert(args@ =~= command@.subrange(1, i + 1));
        i = i + 1;
    }
    assert(args@ =~= command@.drop_first());
    Ok((program, args))
}

/// The fields of an emit envelope that a control node reads: the port,
/// and the artifact's kind and payload when the envelope has an artifact.
#[derive(Debug)]
pub struct EnvelopeFields {
    /// The `port` field, when it is a string.
    pub port: Option<String>,
    /// The `artifact` object, when present.
    pub artifact: Option<ArtifactFields>,
}

/// The fields of an envelope's artifact.
#[derive(Debug)]
pub struct ArtifactFields {
    /// The `kind` field, when it is a string.
    pub kind: Option<String>,
    /// The `data` field (JSON null when absent).
    pub data: serde_json::Value,
}

/// The emit an envelope stands for, or the error for the first field it
/// lacks: the port, then the artifact, then the artifact's kind.
pub fn envelope_emit(fields: EnvelopeFields) -> (r: Result<Emit, NodeError>)
    ensures
        match fields.port {
            None => r matches Err(NodeError::Internal(m)) && m@ == "Emit envelope missing 'port'"@,
            Some(port) => match fields.artifact {
                None => r matches Err(NodeError::Internal(m)) && m@ == "Emit envelope missing 'artifact'"@,
                Some(a) => match a.kind {
                    None => r matches Err(NodeError::Internal(m)) && m@
                        == "Emit envelope missing 'artifact.kind'"@,
                    Some(kind) => r == Ok::<Emit, NodeError>(
                        Emit { port, artifact: Artifact { kind, data: a.data } },
                    ),
                },
            },
        },
{
    let port = match fields.port {
        None => {
            return Err(NodeError::Internal(String::from_str("Emit envelope missing 'port'")));
        },
        Some(p) => p,
    };
    let a = match fields.artifact {
        None => {
            return Err(NodeError::Internal(String::from_str("Emit envelope missing 'artifact'")));
        },
        Some(a) => a,
    };
    let kind = match a.kind {
        None => {
            return Err(NodeError::Internal(String::from_str("Emit envelope missing 'artifact.kind'")));
        },
        Some(k) => k,
    };
    Ok(Emit { port, artifact: Artifact { kind, data: a.data } })
}

/// The error for an envelope line that is not valid JSON.
pub fn invalid_envelope(parse_error: &str) -> (r: NodeError)
    ensures
        r matches NodeError::Internal(m) && m@ == "Invalid emit envelope from control node: "@ + parse_error@,
{
    let mut m = String::from_str("Invalid emit envelope from control node: ");
    m.append(parse_error);
    NodeError::Internal(m)
}

/// The string that member `k` of the content `d` holds, when it is one.
pub open spec fn string_member(d: JsonData, k: Seq<char>) -> Option<Seq<char>> {
    match data_member(d, k) {
        Some(JsonData::Str(s)) => Some(s),
        _ => None,
    }
}

/// The content of member `k` of `d`, or null when there is none.
pub open spec fn member_or_null(d: JsonData, k: Seq<char>) -> JsonData {
    match data_member(d, k) {
        Some(x) => x,
        None => JsonData::Null,
    }
}

/// Read the fields of an emit envelope: the `port` string, and the
/// `artifact` object's `kind` string and `data` (null when absent).
pub fn envelope_fields(v: &serde_json::Value) -> (r: EnvelopeFields)
    ensures
        match r.port {
            Some(p) => string_member(json_data(*v), "port"@) == Some(p@),
            None => string_member(json_data(*v), "port"@) is None,
        },
        match r.artifact {
            Some(a) => data_member(json_data(*v), "artifact"@) matches Some(ad) && (match a.kind {
                Some(k) => string_member(ad, "kind"@) == Some(k@),
                None => string_member(ad, "kind"@) is None,
            }) && json_data(a.data) == member_or_null(ad, "data"@),
            None => data_member(json_data(*v), "artifact"@) is None,
        },
{
    let port = match json_member(v, "port") {
        Some(p) => json_string(p),
        None => None,
    };
    let artifact = match json_member(v, "artifact") {
        Some(a) => {
            let kind = match json_member(a, "kind") {
                Some(k) => json_string(k),
                None => None,
            };
            let data = match json_member(a, "data") {
                Some(d) => copy_json(d),
                None => json_null(),
            };
            Some(ArtifactFields { kind, data })
        },
        None => None,
    };
    EnvelopeFields { port, artifact }
}

/// What an emit envelope with content `d` stands for: the port, the
/// artifact's kind and the content of its payload, or the error for the
/// first field it lacks.
pub open spec fn envelope_result(d: JsonData) -> Result<(Seq<char>, Seq<char>, JsonData), Seq<char>> {
    match string_member(d, "port"@) {
        None => Err("Emit envelope missing 'port'"@),
        Some(p) => match data_member(d, "artifact"@) {
            None => Err("Emit envelope missing 'artifact'"@),
            Some(a) => match string_member(a, "kind"@) {
                None => Err("Emit envelope missing 'artifact.kind'"@),
                Some(k) => Ok((p, k, member_or_null(a, "data"@))),
            },
        },
    }
}

/// What one output line stands for: the emission of the envelope it holds,
/// or the error when it is not JSON or lacks a field.
#[verifier::opaque]
pub open spec fn line_result(line: Seq<char>) -> Result<(Seq<char>, Seq<char>, JsonData), Seq<char>> {
    match parsed_json(line) {
        Ok(d) => envelope_result(d),
        Err(m) => Err("Invalid emit envelope from control node: "@ + m),
    }
}

/// What the output lines `lines` stand for, in order: every emission, or
/// the error of the first line that fails.
pub open spec fn lines_result(lines: Seq<Seq<char>>) -> Result<Seq<(Seq<char>, Seq<char>, JsonData)>, Seq<char>>
    decreases lines.len(),
{
    if lines.len() == 0 {
        Ok(Seq::empty())
    } else {
        match lines_result(lines.drop_last()) {
            Err(m) => Err(m),
            Ok(es) => match line_result(lines.last()) {
                Err(m) => Err(m),
                Ok(e) => Ok(es.push(e)),
            },
        }
    }
}

/// The emissions `v` are the ones `es` describes: port, kind and payload
/// content, in order.
pub open spec fn emits_described(v: Seq<Emit>, es: Seq<(Seq<char>, Seq<char>, JsonData)>) -> bool {
    &&& v.len() == es.len()
    &&& forall|i: int|
        0 <= i < v.len() ==> (#[trigger] v[i]).port@ == es[i].0 && v[i].artifact.kind@ == es[i].1 && json_data(
            v[i].artifact.data,
        ) == es[i].2
}

/// The emission of one output line, or the error it stands for.
fn emit_of_line(line: &str) -> (r: Result<Emit, NodeError>)
    ensures
        match line_result(line@) {
            Ok(e) => r matches Ok(em) && em.port@ == e.0 && em.artifact.kind@ == e.1 && json_data(em.artifact.data)
                == e.2,
            Err(m) => r matches Err(NodeError::Internal(x)) && x@ == m,
        },
{
    reveal(line_result);
    let v = match parse_json(line) {
        Ok(v) => v,
        Err(m) => {
            return Err(invalid_envelope(m.as_str()));
        },
    };
    let fields = envelope_fields(&v);
    envelope_emit(fields)
}

/// Once a prefix of the lines fails, all of them fail with its error.
proof fn lemma_lines_err(lines: Seq<Seq<char>>, n: int)
    requires
        0 <= n <= lines.len(),
        lines_result(lines.subrange(0, n)) is Err,
    ensures
        lines_result(lines) == lines_result(lines.subrange(0, n)),
    decreases lines.len() - n,
{
    if n < lines.len() {
        assert(lines.subrange(0, n + 1).drop_last() =~= lines.subrange(0, n));
        lemma_lines_err(lines, n + 1);
    } else {
        assert(lines.subrange(0, n) =~= lines);
    }
}

/// The emissions of a control node's standard output: every line that is
/// not blank holds one JSON emit envelope; the first line that is not
/// valid JSON, or lacks a field, fails the whole output.
pub fn emits_of_stdout(stdout: &str) -> (r: Result<Vec<Emit>, NodeError>)
    ensures
        match lines_result(content_lines(split_lines(stdout@))) {
            Ok(es) => r matches Ok(v) && emits_described(v@, es),
            Err(m) => r matches Err(NodeError::Internal(x)) && x@ == m,
        },
{
    let lines = envelope_lines(stdout);
    emits_of_lines(&lines)
}

/// The emissions of the output lines `lines`, in order, or the error of
/// the first line that fails.
fn emits_of_lines(lines: &Vec<String>) -> (r: Result<Vec<Emit>, NodeError>)
    ensures
        match lines_result(texts(lines@)) {
            Ok(es) => r matches Ok(v) && emits_described(v@, es),
            Err(m) => r matches Err(NodeError::Internal(x)) && x@ == m,
        },
{
    let ghost ls = texts(lines@);
    let mut out: Vec<Emit> = Vec::new();
    let ghost mut es: Seq<(Seq<char>, Seq<char>, JsonData)> = Seq::empty();
    assert(ls.subrange(0, 0) =~= Seq::<Seq<char>>::empty());
    let mut i: usize = 0;
    while i < lines.len()
        invariant
            0 <= i <= lines@.len(),
            ls == texts(lines@),
            ls.len() == lines@.len(),
            lines_result(ls.subrange(0, i as int)) == Ok::<Seq<(Seq<char>, Seq<char>, JsonData)>, Seq<char>>(es),
            emits_described(out@, es),
        decreases lines@.len() - i,
    {
        proof {
            assert(ls.subrange(0, i + 1).drop_last() =~= ls.subrange(0, i as int));
            assert(ls.subrange(0, i + 1).last() == lines@[i as int]@);
        }
        match emit_of_line(lines[i].as_str()) {
            Ok(em) => {
                let ghost e = (em.port@, em.artifact.kind@, json_data(em.artifact.data));
                let ghost before = out@;
                out.push(em);
                proof {
                    es = es.push(e);
                    assert forall|j: int| 0 <= j < out@.len() implies (#[trigger] out@[j]).port@ == es[j].0
                        && out@[j].artifact.kind@ == es[j].1 && json_data(out@[j].artifact.data) == es[j].2 by {
                        if j < before.len() {
                            assert(out@[j] == before[j]);
                        }
                    }
                }
            },
            Err(e) => {
                proof {
                    lemma_lines_err(ls, i + 1);
                }
                return Err(e);
            },
        }
        i = i + 1;
    }
    assert(ls.subrange(0, lines@.len() as int) =~= ls);
    Ok(out)
}

/// The error for a control node whose subprocess could not be run.
pub fn run_failure(name: &str, error_text: &str) -> (r: NodeError)
    ensures
        r matches NodeError::Internal(m) && m@ == "Control node '"@ + name@ + "' failed: "@ + error_text@,
{
    let mut m = String::from_str("Control node '");
    m.append(name);
    m.append("' failed: ");
    m.append(error_text);
    NodeError::Internal(m)
}

} // verus!
