//! Shell-backed agent tools: the command line a call runs, the text it
//! answers with, and the summaries reported of it.
use vstd::prelude::*;
use vstd::string::*;
use crate::control::{first_chars, ProcessOutput};
use crate::json::{
    compact_json_text, entries_data, json_data, json_empty_object, json_entries, json_string, json_text, parse_json,
    parsed_json, Json, JsonData,
};
use crate::text::{chars_of, matches_at, occurs, occurs_at, signed_decimal, signed_text};

verus! {

/// `s` with every occurrence of `pat` replaced by `rep`, scanning from the
/// left without overlaps.
pub open spec fn replace_all(s: Seq<char>, pat: Seq<char>, rep: Seq<char>) -> Seq<char>
    decreases s.len(),
{
    if s.len() == 0 {
        Seq::empty()
    } else if pat.len() > 0 && occurs_at(s, pat, 0) {
        rep + replace_all(s.subrange(pat.len() as int, s.len() as int), pat, rep)
    } else {
        seq![s[0]] + replace_all(s.subrange(1, s.len() as int), pat, rep)
    }
}

/// The placeholder that stands for argument `key`: `{{key}}`.
pub open spec fn placeholder(key: Seq<char>) -> Seq<char> {
    seq!['{', '{'] + key + seq!['}', '}']
}

/// `s` with the placeholder of each argument replaced by its text, one
/// argument after the other.
pub open spec fn substitute(s: Seq<char>, args: Seq<(Seq<char>, Seq<char>)>) -> Seq<char>
    decreases args.len(),
{
    if args.len() == 0 {
        s
    } else {
        replace_all(substitute(s, args.drop_last()), placeholder(args.last().0), args.last().1)
    }
}

/// Text `s` opens a template at `i`: `{{`.
pub open spec fn opens_at(s: Seq<char>, i: int) -> bool {
    0 <= i && i + 1 < s.len() && s[i] == '{' && s[i + 1] == '{'
}

/// Text `s` closes a template at `i`: `}}`.
pub open spec fn closes_at(s: Seq<char>, i: int) -> bool {
    0 <= i && i + 1 < s.len() && s[i] == '}' && s[i + 1] == '}'
}

/// `i` is the first position where `s` opens a template.
pub open spec fn first_open(s: Seq<char>, i: int) -> bool {
    opens_at(s, i) && forall|j: int| 0 <= j < i ==> !opens_at(s, j)
}

/// `j` is the first position at or after `from` where `s` closes a template.
pub open spec fn first_close(s: Seq<char>, from: int, j: int) -> bool {
    from <= j && closes_at(s, j) && forall|t: int| from <= t < j ==> !closes_at(s, t)
}

/// `s` with its unreplaced templates removed: the first `{{` and the first
/// `}}` from there on, with what lies between, are cut out, again and
/// again, until no `{{` is followed by a `}}`.
pub open spec fn strip_templates(s: Seq<char>) -> Seq<char>
    decreases s.len(),
{
    if exists|i: int| first_open(s, i) {
        let st = choose|i: int| first_open(s, i);
        if exists|j: int| first_close(s, st, j) {
            let e = choose|j: int| first_close(s, st, j);
            strip_templates(s.subrange(0, st) + s.subrange(e + 2, s.len() as int))
        } else {
            s
        }
    } else {
        s
    }
}

/// The argument texts of a call as plain pairs.
pub open spec fn arg_texts(args: Seq<(String, String)>) -> Seq<(Seq<char>, Seq<char>)> {
    args.map_values(|p: (String, String)| (p.0@, p.1@))
}

/// One command-line element after interpolation.
pub open spec fn interpolated(token: Seq<char>, args: Seq<(Seq<char>, Seq<char>)>) -> Seq<char> {
    strip_templates(substitute(token, args))
}

/// `s` with every occurrence of `pat` replaced by `rep`.
pub(crate) fn replace_text(s: &str, pat: &Vec<char>, rep: &str) -> (r: String)
    requires
        pat@.len() > 0,
    ensures
        r@ == replace_all(s@, pat@, rep@),
{
    let c = chars_of(s);
    let n = c.len();
    let mut out = String::new();
    let mut i: usize = 0;
    assert(s@.subrange(0, n as int) =~= s@);
    while i < n
        invariant
            0 <= i <= n,
            n == c@.len(),
            c@ == s@,
            pat@.len() > 0,
            replace_all(s@, pat@, rep@) == out@ + replace_all(s@.subrange(i as int, n as int), pat@, rep@),
        decreases n - i,
    {
        let ghost rest = s@.subrange(i as int, n as int);
        let ghost before = out@;
        if pat.len() <= n - i && matches_at(&c, pat, i) {
            let ghost after = s@.subrange(i + pat@.len(), n as int);
            proof {
                assert(rest.subrange(0, pat@.len() as int) =~= s@.subrange(i as int, i + pat@.len()));
                assert(rest.subrange(pat@.len() as int, rest.len() as int) =~= after);
                assert(before + (rep@ + replace_all(after, pat@, rep@)) =~= (before + rep@) + replace_all(
                    after,
                    pat@,
                    rep@,
                ));
            }
            out.append(rep);
            i = i + pat.len();
        } else {
            let ghost after = s@.subrange(i + 1, n as int);
            proof {
                if pat@.len() <= n - i {
                    assert(rest.subrange(0, pat@.len() as int) =~= s@.subrange(i as int, i + pat@.len()));
                }
                assert(rest.subrange(1, rest.len() as int) =~= after);
                assert(s@.subrange(i as int, i + 1) =~= seq![rest[0]]);
                assert(before + (seq![rest[0]] + replace_all(after, pat@, rep@)) =~= (before + seq![rest[0]])
                    + replace_all(after, pat@, rep@));
            }
            out.append(s.substring_char(i, i + 1));
            i = i + 1;
        }
    }
    assert(out@ + replace_all(s@.subrange(n as int, n as int), pat@, rep@) =~= out@);
    out
}

/// The characters of the placeholder for `key`.
pub(crate) fn placeholder_chars(key: &str) -> (r: Vec<char>)
    ensures
        r@ == placeholder(key@),
{
    let k = chars_of(key);
    let mut v: Vec<char> = Vec::new();
    v.push('{');
    v.push('{');
    let mut i: usize = 0;
    while i < k.len()
        invariant
            0 <= i <= k@.len(),
            v@ == seq!['{', '{'] + k@.subrange(0, i as int),
        decreases k@.len() - i,
    {
        v.push(k[i]);
        assert(v@ =~= seq!['{', '{'] + k@.subrange(0, i + 1));
        i = i + 1;
    }
    v.push('}');
    v.push('}');
    assert(k@.subrange(0, k@.len() as int) =~= k@);
    assert(v@ =~= placeholder(key@));
    v
}

/// `token` with the placeholder of each argument replaced by its text.
fn substitute_args(token: &String, args: &Vec<(String, String)>) -> (r: String)
    ensures
        r@ == substitute(token@, arg_texts(args@)),
{
    let mut cur = token.clone();
    let mut i: usize = 0;
    assert(arg_texts(args@).subrange(0, 0) =~= Seq::<(Seq<char>, Seq<char>)>::empty());
    while i < args.len()
        invariant
            0 <= i <= args@.len(),
            cur@ == substitute(token@, arg_texts(args@).subrange(0, i as int)),
        decreases args@.len() - i,
    {
        let pat = placeholder_chars(args[i].0.as_str());
        let next = replace_text(cur.as_str(), &pat, args[i].1.as_str());
        proof {
            let all = arg_texts(args@);
            assert(all.subrange(0, i + 1).drop_last() =~= all.subrange(0, i as int));
            assert(all.subrange(0, i + 1).last() == all[i as int]);
        }
        cur = next;
        i = i + 1;
    }
    assert(arg_texts(args@).subrange(0, args@.len() as int) =~= arg_texts(args@));
    cur
}

/// The first position where `c` opens a template.
fn find_open(c: &Vec<char>) -> (r: Option<usize>)
    ensures
        match r {
            Some(i) => first_open(c@, i as int),
            None => forall|i: int| !opens_at(c@, i),
        },
{
    let mut i: usize = 0;
    while i < c.len() && i + 1 < c.len()
        invariant
            forall|j: int| 0 <= j < i ==> !opens_at(c@, j),
        decreases c@.len() - i,
    {
        if c[i] == '{' && c[i + 1] == '{' {
            return Some(i);
        }
        i = i + 1;
    }
    None
}

/// The first position at or after `from` where `c` closes a template.
fn find_close(c: &Vec<char>, from: usize) -> (r: Option<usize>)
    ensures
        match r {
            Some(j) => first_close(c@, from as int, j as int),
            None => forall|j: int| from <= j ==> !closes_at(c@, j),
        },
{
    let mut j: usize = from;
    while j < c.len() && j + 1 < c.len()
        invariant
            from <= j,
            forall|t: int| from <= t < j ==> !closes_at(c@, t),
        decreases c@.len() - j,
    {
        if c[j] == '}' && c[j + 1] == '}' {
            return Some(j);
        }
        j = j + 1;
    }
    None
}

/// `s` with its unreplaced templates removed.
fn strip_text(s: String) -> (r: String)
    ensures
        r@ == strip_templates(s@),
{
    let mut cur = s;
    loop
        invariant
            strip_templates(cur@) == strip_templates(s@),
        decreases cur@.len(),
    {
        let c = chars_of(cur.as_str());
        let st = match find_open(&c) {
            Some(st) => st,
            None => {
                return cur;
            },
        };
        let e = match find_close(&c, st) {
            Some(e) => e,
            None => {
                proof {
                    assert(forall|j: int| !first_close(cur@, st as int, j));
                }
                return cur;
            },
        };
        proof {
            let a = choose|i: int| first_open(cur@, i);
            assert(a == st) by {
                if a < st {
                } else if a > st {
                }
            }
            let b = choose|j: int| first_close(cur@, st as int, j);
            assert(b == e) by {
                if b < e {
                } else if b > e {
                }
            }
        }
        let n = c.len();
        let mut next = String::from_str(cur.as_str().substring_char(0, st));
        next.append(cur.as_str().substring_char(e + 2, n));
        cur = next;
    }
}

/// The command line of a tool call: in each element, the placeholder
/// `{{key}}` of each argument is replaced by the argument's text (a string
/// argument stands for itself, any other value for its JSON text), one
/// argument after the other; then every remaining template, from `{{` to
/// the next `}}`, is removed.
pub fn interpolate(command: &Vec<String>, args: &Vec<(String, String)>) -> (r: Vec<String>)
    ensures
        r@.len() == command@.len(),
        forall|i: int| 0 <= i < command@.len() ==> (#[trigger] r@[i])@ == interpolated(command@[i]@, arg_texts(args@)),
{
    let mut out: Vec<String> = Vec::new();
    let mut i: usize = 0;
    while i < command.len()
        invariant
            0 <= i <= command@.len(),
            out@.len() == i,
            forall|t: int| 0 <= t < i ==> (#[trigger] out@[t])@ == interpolated(command@[t]@, arg_texts(args@)),
        decreases command@.len() - i,
    {
        let t = strip_text(substitute_args(&command[i], args));
        out.push(t);
        i = i + 1;
    }
    out
}

/// What a tool call answers: the subprocess's standard output when it
/// succeeded; otherwise `Error (exit CODE): ` and the first 500 characters
/// of its standard error, CODE being -1 when the process ended by a signal.
pub open spec fn tool_output_text(success: bool, stdout: Seq<char>, stderr: Seq<char>, exit_code: Option<i32>) -> Seq<
    char,
> {
    if success {
        stdout
    } else {
        let code: int = match exit_code {
            Some(c) => c as int,
            None => -1,
        };
        "Error (exit "@ + signed_text(code) + "): "@ + first_chars(stderr, 500)
    }
}

/// The arguments of a tool call: the JSON value its argument text holds,
/// or the empty object when the text is not JSON.
pub fn parse_arguments(args_json: &str) -> (r: serde_json::Value)
    ensures
        json_data(r) == match parsed_json(args_json@) {
            Ok(d) => d,
            Err(_) => JsonData::Object(Seq::empty()),
        },
{
    match parse_json(args_json) {
        Ok(v) => v,
        Err(_) => json_empty_object(),
    }
}

/// The text an argument value stands for: a string itself, any other
/// value its compact JSON text.
pub open spec fn value_text(d: JsonData) -> Seq<char> {
    match d {
        JsonData::Str(s) => s,
        _ => compact_json_text(d),
    }
}

/// Each member of the arguments `d` with the text of its value, in order;
/// nothing when `d` is not an object.
pub open spec fn argument_pairs(d: JsonData) -> Seq<(Seq<char>, Seq<char>)> {
    match d {
        JsonData::Object(ms) => ms.map_values(|m: (Seq<char>, JsonData)| (m.0, value_text(m.1))),
        _ => Seq::empty(),
    }
}

/// The texts that stand for a call's arguments: each member of the
/// arguments object with its string, or its JSON text when it is not a
/// string.
pub fn argument_texts(args: &serde_json::Value) -> (r: Vec<(String, String)>)
    ensures
        arg_texts(r@) == argument_pairs(json_data(*args)),
{
    let es = match json_entries(args) {
        None => {
            let out: Vec<(String, String)> = Vec::new();
            assert(arg_texts(out@) =~= Seq::empty());
            return out;
        },
        Some(es) => es,
    };
    let ghost ms = entries_data(es@);
    let mut out: Vec<(String, String)> = Vec::new();
    let mut i: usize = 0;
    while i < es.len()
        invariant
            0 <= i <= es@.len(),
            ms == entries_data(es@),
            json_data(*args) == JsonData::Object(ms),
            arg_texts(out@) =~= ms.subrange(0, i as int).map_values(
                |m: (Seq<char>, JsonData)| (m.0, value_text(m.1)),
            ),
        decreases es@.len() - i,
    {
        let text = match json_string(&es[i].1) {
            Some(t) => t,
            None => json_text(&es[i].1),
        };
        let key = es[i].0.clone();
        let ghost prev = out@;
        proof {
            assert(ms[i as int] == (es@[i as int].0@, json_data(es@[i as int].1)));
            assert(text@ == value_text(ms[i as int].1));
        }
        out.push((key, text));
        proof {
            let f = |m: (Seq<char>, JsonData)| (m.0, value_text(m.1));
            assert(arg_texts(out@) =~= arg_texts(prev).push((ms[i as int].0, value_text(ms[i as int].1))));
            assert(ms.subrange(0, i + 1).map_values(f) =~= ms.subrange(0, i as int).map_values(f).push(
                f(ms[i as int]),
            ));
        }
        i = i + 1;
    }
    assert(ms.subrange(0, es@.len() as int) =~= ms);
    out
}

/// The first `n` characters of `s`.
fn prefix_chars(s: &str, n: usize) -> (r: String)
    ensures
        r@ == first_chars(s@, n as nat),
{
    let len = s.unicode_len();
    let keep = if len <= n {
        len
    } else {
        n
    };
    let r = String::from_str(s.substring_char(0, keep));
    proof {
        if len <= n {
            assert(s@.subrange(0, len as int) =~= s@);
        } else {
            assert(s@.subrange(0, n as int) =~= s@.take(n as int));
        }
    }
    r
}

/// The answer of a tool call whose subprocess ended with `result`.
pub fn tool_output(result: &ProcessOutput) -> (r: String)
    ensures
        r@ == tool_output_text(result.success, result.stdout@, result.stderr@, result.exit_code),
{
    if result.success {
        return result.stdout.clone();
    }
    let code: i64 = match result.exit_code {
        Some(c) => c as i64,
        None => -1,
    };
    let mut s = String::from_str("Error (exit ");
    s.append(signed_decimal(code).as_str());
    s.append("): ");
    s.append(prefix_chars(result.stderr.as_str(), 500).as_str());
    s
}

/// The preview of a tool's answer reported in events: its first 500
/// characters.
pub fn result_preview(output: &str) -> (r: String)
    ensures
        r@ == first_chars(output@, 500),
{
    prefix_chars(output, 500)
}

/// The text of the first member of `m` whose value is a string.
pub open spec fn first_text_member(m: Seq<(String, Json)>) -> Option<Seq<char>>
    decreases m.len(),
{
    if m.len() == 0 {
        None
    } else {
        match m[0].1 {
            Json::Str(t) => Some(t@),
            _ => first_text_member(m.drop_first()),
        }
    }
}

/// The summary of a tool call's arguments: the first 80 characters of the
/// first string among the members of the arguments object, or nothing.
pub open spec fn args_summary_text(args: Json) -> Seq<char> {
    match args {
        Json::Object(m) => match first_text_member(m@) {
            Some(t) => first_chars(t, 80),
            None => Seq::empty(),
        },
        _ => Seq::empty(),
    }
}

/// A short human-readable summary of a tool call's arguments.
pub fn args_summary(args: &Json) -> (r: String)
    ensures
        r@ == args_summary_text(*args),
{
    match args {
        Json::Object(m) => {
            let mut i: usize = 0;
            assert(m@.subrange(0, m@.len() as int) =~= m@);
            while i < m.len()
                invariant
                    0 <= i <= m@.len(),
                    *args == Json::Object(*m),
                    first_text_member(m@) == first_text_member(m@.subrange(i as int, m@.len() as int)),
                decreases m@.len() - i,
            {
                let ghost rest = m@.subrange(i as int, m@.len() as int);
                proof {
                    assert(rest.drop_first() =~= m@.subrange(i + 1, m@.len() as int));
                    assert(rest[0] == m@[i as int]);
                }
                match &m[i].1 {
                    Json::Str(t) => {
                        return prefix_chars(t.as_str(), 80);
                    },
                    _ => {},
                }
                i = i + 1;
            }
            String::new()
        },
        _ => String::new(),
    }
}

/// Replacing a pattern that starts with `{{` in a text without `{{` leaves
/// the text as it is.
proof fn lemma_replace_absent(s: Seq<char>, pat: Seq<char>, rep: Seq<char>)
    requires
        pat.len() >= 2,
        pat[0] == '{',
        pat[1] == '{',
        forall|i: int| !opens_at(s, i),
    ensures
        replace_all(s, pat, rep) == s,
    decreases s.len(),
{
    if s.len() > 0 {
        if occurs_at(s, pat, 0) {
            assert(s.subrange(0, pat.len() as int)[0] == s[0]);
            assert(s.subrange(0, pat.len() as int)[1] == s[1]);
            assert(opens_at(s, 0));
        }
        let rest = s.subrange(1, s.len() as int);
        assert forall|i: int| !opens_at(rest, i) by {
            if opens_at(rest, i) {
                assert(rest[i] == s[i + 1] && rest[i + 1] == s[i + 2]);
                assert(opens_at(s, i + 1));
            }
        }
        lemma_replace_absent(rest, pat, rep);
        assert(seq![s[0]] + rest =~= s);
    }
}

/// Substituting arguments in a text without `{{` leaves it as it is.
proof fn lemma_substitute_absent(s: Seq<char>, args: Seq<(Seq<char>, Seq<char>)>)
    requires
        forall|i: int| !opens_at(s, i),
    ensures
        substitute(s, args) == s,
    decreases args.len(),
{
    if args.len() > 0 {
        lemma_substitute_absent(s, args.drop_last());
        lemma_replace_absent(s, placeholder(args.last().0), args.last().1);
    }
}

/// A command-line element without `{{` is passed on as it is, whatever the
/// arguments of the call.
pub proof fn law_plain_elements_unchanged(token: Seq<char>, args: Seq<(Seq<char>, Seq<char>)>)
    requires
        forall|i: int| !opens_at(token, i),
    ensures
        interpolated(token, args) == token,
{
    lemma_substitute_absent(token, args);
    assert(!exists|i: int| first_open(token, i));
}

/// A text in which `pat` does not occur is left as it is by replacing
/// `pat`.
proof fn lemma_replace_not_occurring(s: Seq<char>, pat: Seq<char>, rep: Seq<char>)
    requires
        pat.len() > 0,
        forall|i: int| !occurs_at(s, pat, i),
    ensures
        replace_all(s, pat, rep) == s,
    decreases s.len(),
{
    if s.len() > 0 {
        let rest = s.subrange(1, s.len() as int);
        assert forall|i: int| !occurs_at(rest, pat, i) by {
            if occurs_at(rest, pat, i) {
                assert(rest.subrange(i, i + pat.len()) =~= s.subrange(i + 1, i + 1 + pat.len()));
                assert(occurs_at(s, pat, i + 1));
            }
        }
        lemma_replace_not_occurring(rest, pat, rep);
        assert(seq![s[0]] + rest =~= s);
    }
}

/// Replacing a pattern in the pattern itself gives the replacement.
proof fn lemma_replace_whole(pat: Seq<char>, rep: Seq<char>)
    requires
        pat.len() > 0,
    ensures
        replace_all(pat, pat, rep) == rep,
{
    assert(pat.subrange(0, pat.len() as int) =~= pat);
    assert(occurs_at(pat, pat, 0));
    let rest = pat.subrange(pat.len() as int, pat.len() as int);
    assert(rest =~= Seq::<char>::empty());
    assert(replace_all(rest, pat, rep) == Seq::<char>::empty());
    assert(rep + Seq::<char>::empty() =~= rep);
}

/// A command-line element that is exactly the placeholder `{{key}}` of
/// argument `i` becomes that argument's text, wherever the argument stands
/// among the call's arguments, provided no earlier argument's placeholder
/// occurs in it and the text opens no template of its own.
pub proof fn law_placeholder_becomes_value(args: Seq<(Seq<char>, Seq<char>)>, i: int)
    requires
        0 <= i < args.len(),
        forall|j: int|
            #![trigger args[j]]
            0 <= j < i ==> !occurs(seq!['{', '{'] + args[i].0 + seq!['}', '}'], seq!['{', '{'] + args[j].0 + seq![
                '}',
                '}',
            ]),
        !occurs(args[i].1, seq!['{', '{']),
    ensures
        interpolated(seq!['{', '{'] + args[i].0 + seq!['}', '}'], args) == args[i].1,
    decreases args.len(),
{
    let tok = seq!['{', '{'] + args[i].0 + seq!['}', '}'];
    assert(tok == placeholder(args[i].0));
    let v = args[i].1;
    assert forall|p: int| !opens_at(v, p) by {
        if opens_at(v, p) {
            assert(v.subrange(p, p + 2) =~= seq!['{', '{']);
            assert(occurs_at(v, seq!['{', '{'], p));
        }
    }
    lemma_substitute_prefix(args, i, args.len() as int);
    assert(args.subrange(0, args.len() as int) =~= args);
    assert(!exists|p: int| first_open(v, p));
}

/// Substituting the first `n` arguments in the placeholder of argument `i`:
/// the placeholder itself before argument `i`, its text from then on.
proof fn lemma_substitute_prefix(args: Seq<(Seq<char>, Seq<char>)>, i: int, n: int)
    requires
        0 <= i < args.len(),
        0 <= n <= args.len(),
        forall|j: int|
            #![trigger args[j]]
            0 <= j < i ==> !occurs(seq!['{', '{'] + args[i].0 + seq!['}', '}'], seq!['{', '{'] + args[j].0 + seq![
                '}',
                '}',
            ]),
        forall|p: int| !opens_at(args[i].1, p),
    ensures
        substitute(placeholder(args[i].0), args.subrange(0, n)) == if n <= i {
            placeholder(args[i].0)
        } else {
            args[i].1
        },
    decreases n,
{
    let tok = placeholder(args[i].0);
    if n == 0 {
        assert(args.subrange(0, 0) =~= Seq::<(Seq<char>, Seq<char>)>::empty());
    } else {
        lemma_substitute_prefix(args, i, n - 1);
        let pre = args.subrange(0, n);
        assert(pre.drop_last() =~= args.subrange(0, n - 1));
        assert(pre.last() == args[n - 1]);
        let pat = placeholder(args[n - 1].0);
        if n - 1 < i {
            assert(!occurs(tok, pat)) by {
                let _ = args[n - 1];
            }
            lemma_replace_not_occurring(tok, pat, args[n - 1].1);
        } else if n - 1 == i {
            lemma_replace_whole(tok, args[i].1);
        } else {
            lemma_replace_absent(args[i].1, pat, args[n - 1].1);
        }
    }
}

} // verus!
