use vstd::prelude::*;
use vstd::string::StrSliceExecFns;
use vstd::string::StringExecFns;
use crate::errors::{exit_code, exit_code_spec, Error};
use crate::strings::{dec_spec, dec_string, pad_left, pad_left_spec};

verus! {

/// Characters that must be escaped inside a Nix double-quoted string
/// literal: the quote and the backslash themselves, and the dollar sign,
/// which would otherwise start an interpolation.
pub open spec fn needs_escape(c: char) -> bool {
    c == '"' || c == '\\' || c == '$'
}

/// The body of the literal denoting `s`: every character that needs it is
/// preceded by a backslash.
pub open spec fn escape_body(s: Seq<char>) -> Seq<char>
    decreases s.len(),
{
    if s.len() == 0 {
        Seq::empty()
    } else {
        let rest = escape_body(s.drop_first());
        if needs_escape(s[0]) {
            seq!['\\', s[0]] + rest
        } else {
            seq![s[0]] + rest
        }
    }
}

/// The Nix string literal denoting `s`: the escaped body in double
/// quotes.
pub open spec fn escape_spec(s: Seq<char>) -> Seq<char> {
    seq!['"'] + escape_body(s) + seq!['"']
}

proof fn lemma_escape_body_concat(a: Seq<char>, b: Seq<char>)
    ensures
        escape_body(a + b) == escape_body(a) + escape_body(b),
    decreases a.len(),
{
    if a.len() == 0 {
        assert(a + b =~= b);
        assert(escape_body(a) + escape_body(b) =~= escape_body(b));
    } else {
        assert((a + b)[0] == a[0]);
        assert((a + b).drop_first() =~= a.drop_first() + b);
        lemma_escape_body_concat(a.drop_first(), b);
        if needs_escape(a[0]) {
            assert(seq!['\\', a[0]] + (escape_body(a.drop_first()) + escape_body(b)) =~= (seq![
                '\\',
                a[0],
            ] + escape_body(a.drop_first())) + escape_body(b));
        } else {
            assert(seq![a[0]] + (escape_body(a.drop_first()) + escape_body(b)) =~= (seq![a[0]]
                + escape_body(a.drop_first())) + escape_body(b));
        }
    }
}

/// Escapes a feature name for safe embedding in the build description's
/// string-literal syntax, double quotes included.
pub fn escape_nix_string(s: &str) -> (r: String)
    ensures
        r@ == escape_spec(s@),
{
    let n = s.unicode_len();
    let mut r = String::new();
    r.push('"');
    proof {
        assert(r@ =~= seq!['"'] + escape_body(s@.take(0)));
    }
    let mut i: usize = 0;
    while i < n
        invariant
            0 <= i <= n,
            n == s@.len(),
            r@ == seq!['"'] + escape_body(s@.take(i as int)),
        decreases n - i,
    {
        let c = s.get_char(i);
        if c == '"' || c == '\\' || c == '$' {
            r.push('\\');
        }
        r.push(c);
        proof {
            assert(s@.take(i as int + 1) =~= s@.take(i as int) + seq![s@[i as int]]);
            lemma_escape_body_concat(s@.take(i as int), seq![s@[i as int]]);
            assert(escape_body(Seq::<char>::empty()) == Seq::<char>::empty());
            assert(seq![s@[i as int]].drop_first() =~= Seq::<char>::empty());
            if needs_escape(c) {
                assert(escape_body(seq![s@[i as int]]) =~= seq!['\\', s@[i as int]]);
            } else {
                assert(escape_body(seq![s@[i as int]]) =~= seq![s@[i as int]]);
            }
            assert(r@ =~= seq!['"'] + escape_body(s@.take(i as int + 1)));
        }
        i = i + 1;
    }
    r.push('"');
    proof {
        assert(s@.take(n as int) =~= s@);
        assert(r@ =~= escape_spec(s@));
    }
    r
}

/// How the build description's language reads the body of a double-quoted
/// string literal: a backslash makes the next character literal (with
/// `n`, `r` and `t` after a backslash denoting control characters), a
/// bare quote cannot occur inside a body, and a bare `${` would start an
/// interpolation, so a body holding one is not a plain literal.
pub open spec fn unescape_body(s: Seq<char>) -> Option<Seq<char>>
    decreases s.len(),
{
    if s.len() == 0 {
        Some(Seq::empty())
    } else if s[0] == '\\' {
        if s.len() == 1 {
            None
        } else {
            let c = s[1];
            let lit = if c == 'n' {
                '\n'
            } else if c == 'r' {
                '\r'
            } else if c == 't' {
                '\t'
            } else {
                c
            };
            match unescape_body(s.skip(2)) {
                Some(rest) => Some(seq![lit] + rest),
                None => None,
            }
        }
    } else if s[0] == '"' {
        None
    } else if s[0] == '$' && s.len() >= 2 && s[1] == '{' {
        None
    } else {
        match unescape_body(s.drop_first()) {
            Some(rest) => Some(seq![s[0]] + rest),
            None => None,
        }
    }
}

/// The string a double-quoted literal denotes, where `lit` is one.
pub open spec fn parse_literal_spec(lit: Seq<char>) -> Option<Seq<char>> {
    if lit.len() >= 2 && lit[0] == '"' && lit.last() == '"' {
        unescape_body(lit.subrange(1, lit.len() - 1))
    } else {
        None
    }
}

proof fn lemma_unescape_escape_body(s: Seq<char>)
    ensures
        unescape_body(escape_body(s)) == Some(s),
    decreases s.len(),
{
    if s.len() == 0 {
        assert(escape_body(s) =~= Seq::<char>::empty());
    } else {
        let c = s[0];
        let rest = escape_body(s.drop_first());
        lemma_unescape_escape_body(s.drop_first());
        if needs_escape(c) {
            let body = seq!['\\', c] + rest;
            assert(escape_body(s) == body);
            assert(body[0] == '\\');
            assert(body.len() >= 2);
            assert(body[1] == c);
            assert(c != 'n' && c != 'r' && c != 't');
            assert(body.skip(2) =~= rest);
            assert(unescape_body(body) == Some(seq![c] + s.drop_first()));
            assert(seq![c] + s.drop_first() =~= s);
        } else {
            let body = seq![c] + rest;
            assert(escape_body(s) == body);
            assert(body[0] == c);
            assert(c != '\\' && c != '"' && c != '$');
            assert(body.drop_first() =~= rest);
            assert(unescape_body(body) == Some(seq![c] + s.drop_first()));
            assert(seq![c] + s.drop_first() =~= s);
        }
    }
}

/// Escaping round-trip: the escaped form of any string, read back as a
/// double-quoted literal of the build description's syntax, denotes the
/// original string.
pub proof fn lemma_escape_round_trip(s: Seq<char>)
    ensures
        parse_literal_spec(escape_spec(s)) == Some(s),
{
    let lit = escape_spec(s);
    assert(lit.len() >= 2);
    assert(lit[0] == '"');
    assert(lit.last() == '"');
    assert(lit.subrange(1, lit.len() - 1) =~= escape_body(s));
    lemma_unescape_escape_body(s);
}

/// The escaped feature names joined with single blanks.
pub open spec fn join_escaped(fs: Seq<Seq<char>>) -> Seq<char>
    decreases fs.len(),
{
    if fs.len() == 0 {
        Seq::empty()
    } else if fs.len() == 1 {
        escape_spec(fs[0])
    } else {
        escape_spec(fs[0]) + seq![' '] + join_escaped(fs.drop_first())
    }
}

/// The list literal holding the escaped feature names.
pub open spec fn features_literal_spec(fs: Seq<Seq<char>>) -> Seq<char> {
    "[ "@ + join_escaped(fs) + " ]"@
}

fn join_escaped_exec(features: &Vec<String>, from: usize) -> (r: String)
    requires
        from <= features@.len(),
    ensures
        r@ == join_escaped(features.deep_view().skip(from as int)),
    decreases features@.len() - from,
{
    let ghost fv = features.deep_view();
    let n = features.len();
    if from == n {
        proof {
            assert(fv.skip(from as int) =~= Seq::<Seq<char>>::empty());
        }
        String::new()
    } else {
        let head = escape_nix_string(features[from].as_str());
        proof {
            assert(fv.skip(from as int)[0] == fv[from as int]);
            assert(fv[from as int] == features@[from as int]@);
        }
        if from + 1 == n {
            proof {
                assert(fv.skip(from as int).len() == 1);
                assert(join_escaped(fv.skip(from as int)) == escape_spec(fv[from as int]));
            }
            head
        } else {
            let tail = join_escaped_exec(features, from + 1);
            proof {
                assert(fv.skip(from as int).drop_first() =~= fv.skip(from as int + 1));
            }
            let r = head.concat(" ").concat(tail.as_str());
            proof {
                reveal_strlit(" ");
                assert(" "@ =~= seq![' ']);
                assert(join_escaped(fv.skip(from as int)) == escape_spec(fv[from as int]) + seq![' ']
                    + join_escaped(fv.skip(from as int + 1)));
                assert(r@ == join_escaped(fv.skip(from as int)));
            }
            r
        }
    }
}

/// Renders the feature list as the escaped, whitespace-joined list
/// literal handed to the external builder.
pub fn features_literal(features: &Vec<String>) -> (r: String)
    ensures
        r@ == features_literal_spec(features.deep_view()),
{
    let joined = join_escaped_exec(features, 0);
    proof {
        assert(features.deep_view().skip(0) =~= features.deep_view());
    }
    String::from_str("[ ").concat(joined.as_str()).concat(" ]")
}

/// The argument list of the external builder invocation: fixed flags, the
/// target attribute, and the feature list literal.
pub open spec fn build_args_spec(nix_attr: Seq<char>, fs: Seq<Seq<char>>) -> Seq<Seq<char>> {
    seq![
        "--show-trace"@,
        "build"@,
        "-f"@,
        "default.nix"@,
        nix_attr,
        "--arg"@,
        "rootFeatures"@,
        features_literal_spec(fs),
    ]
}

/// Constructs the deterministic argument list for the external builder.
pub fn nix_build_args(nix_attr: &str, features: &Vec<String>) -> (r: Vec<String>)
    ensures
        r.deep_view() == build_args_spec(nix_attr@, features.deep_view()),
{
    let mut r: Vec<String> = Vec::new();
    r.push(String::from_str("--show-trace"));
    r.push(String::from_str("build"));
    r.push(String::from_str("-f"));
    r.push(String::from_str("default.nix"));
    r.push(String::from_str(nix_attr));
    r.push(String::from_str("--arg"));
    r.push(String::from_str("rootFeatures"));
    r.push(features_literal(features));
    proof {
        assert(r.deep_view() =~~= build_args_spec(nix_attr@, features.deep_view()));
    }
    r
}

/// The outcome of the external builder: success, or `BuildFailed`
/// carrying the exit code, -1 where the process was terminated without
/// one.
pub fn build_outcome(success: bool, code: Option<i32>) -> (r: Result<(), Error>)
    ensures
        success ==> r == Ok::<(), Error>(()),
        !success ==> r == Err::<(), Error>(Error::BuildFailed(exit_code_spec(code))),
{
    if success {
        Ok(())
    } else {
        Err(Error::BuildFailed(exit_code(code)))
    }
}

/// The diagnostic prefix of line `n`: its 1-based number, right-aligned
/// to five characters, then a colon and a blank.
pub open spec fn line_label(n: nat) -> Seq<char> {
    pad_left_spec(dec_spec(n), 5) + ": "@
}

/// Renders a file's lines for the failure dump, each prefixed with its
/// 1-based, fixed-width, right-aligned line number.
pub fn numbered_lines(lines: &Vec<String>) -> (r: Vec<String>)
    requires
        lines@.len() < usize::MAX,
    ensures
        r.deep_view().len() == lines@.len(),
        forall|i: int|
            0 <= i < lines@.len() ==> r.deep_view()[i] == line_label((i + 1) as nat) + lines@[i]@,
{
    let n = lines.len();
    let mut r: Vec<String> = Vec::new();
    let mut i: usize = 0;
    while i < n
        invariant
            0 <= i <= n,
            n == lines@.len(),
            n < usize::MAX,
            r@.len() == i,
            forall|j: int|
                0 <= j < i ==> (#[trigger] r@[j])@ == line_label((j + 1) as nat) + lines@[j]@,
        decreases n - i,
    {
        let label = pad_left(dec_string((i + 1) as u64), 5);
        let line = label.concat(": ").concat(lines[i].as_str());
        proof {
            assert(line@ == line_label((i + 1) as nat) + lines@[i as int]@);
        }
        r.push(line);
        i = i + 1;
    }
    proof {
        assert forall|i0: int| 0 <= i0 < n implies r.deep_view()[i0] == line_label((i0 + 1) as nat)
            + lines@[i0]@ by {
            assert(r.deep_view()[i0] == r@[i0]@);
        }
    }
    r
}

} // verus!
