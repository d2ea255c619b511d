//! Reading extension commands typed by the operator: a command line with
//! leading `KEY=value` environment settings, and comma-separated lists of
//! builtin extension names.
use vstd::prelude::*;
use crate::extension::{Envs, ExtensionConfig, DEFAULT_EXTENSION_TIMEOUT};

verus! {

/// Whether `char::is_whitespace` holds of the character.
pub uninterp spec fn white_space(c: char) -> bool;

/// Relies on `char::is_whitespace`: whether the character has the Unicode
/// White_Space property. Space, tab, line feed and carriage return have it;
/// no printable ASCII character other than space has it.
#[verifier::external_body]
fn is_white_space(c: char) -> (r: bool)
    ensures
        r == white_space(c),
        c == ' ' || c == '\t' || c == '\n' || c == '\r' ==> r,
        '!' <= c <= '~' ==> !r,
{
    c.is_whitespace()
}

/// The text view of each string.
pub open spec fn views(v: Seq<String>) -> Seq<Seq<char>> {
    v.map_values(|s: String| s@)
}

/// The word `cur` if it is not empty.
pub open spec fn flush(cur: Seq<char>) -> Seq<Seq<char>> {
    if cur.len() > 0 {
        seq![cur]
    } else {
        Seq::empty()
    }
}

/// The words of `s` separated by white space, the first continuing `cur`.
pub open spec fn words_from(s: Seq<char>, cur: Seq<char>) -> Seq<Seq<char>>
    decreases s.len(),
{
    if s.len() == 0 {
        flush(cur)
    } else if white_space(s[0]) {
        flush(cur) + words_from(s.drop_first(), Seq::empty())
    } else {
        words_from(s.drop_first(), cur.push(s[0]))
    }
}

/// The words of `s`: the maximal runs of characters without white space, in order.
pub open spec fn words(s: Seq<char>) -> Seq<Seq<char>> {
    words_from(s, Seq::empty())
}

/// Splits the text at white space into its non-empty words.
pub fn split_words(s: &str) -> (r: Vec<String>)
    ensures
        views(r@) == words(s@),
{
    let n = s.unicode_len();
    let mut out: Vec<String> = Vec::new();
    let mut start: usize = 0;
    let mut i: usize = 0;
    proof {
        assert(s@.subrange(0, n as int) =~= s@);
        assert(s@.subrange(0, 0) =~= Seq::<char>::empty());
        assert(views(out@) + words_from(s@, Seq::empty()) =~= words(s@));
    }
    while i < n
        invariant
            n == s@.len(),
            start <= i <= n,
            views(out@) + words_from(s@.subrange(i as int, n as int), s@.subrange(start as int, i as int)) == words(s@),
        decreases n - i,
    {
        let c = s.get_char(i);
        let ghost rest = s@.subrange(i as int, n as int);
        let ghost cur = s@.subrange(start as int, i as int);
        proof {
            assert(rest[0] == c);
            assert(rest.drop_first() =~= s@.subrange(i + 1, n as int));
        }
        if is_white_space(c) {
            if start < i {
                let ghost before = views(out@);
                out.push(s.substring_char(start, i).to_owned());
                proof {
                    assert(views(out@) =~= before.push(cur));
                    assert(flush(cur) =~= seq![cur]);
                    assert(before.push(cur) + words_from(s@.subrange(i + 1, n as int), Seq::empty()) =~= before + (
                    flush(cur) + words_from(s@.subrange(i + 1, n as int), Seq::empty())));
                }
            } else {
                proof {
                    assert(flush(cur) =~= Seq::<Seq<char>>::empty());
                    assert(flush(cur) + words_from(s@.subrange(i + 1, n as int), Seq::empty()) =~= words_from(
                        s@.subrange(i + 1, n as int),
                        Seq::empty(),
                    ));
                }
            }
            start = i + 1;
            proof {
                assert(s@.subrange(start as int, i + 1) =~= Seq::<char>::empty());
            }
        } else {
            proof {
                assert(cur.push(c) =~= s@.subrange(start as int, i + 1));
            }
        }
        i = i + 1;
    }
    proof {
        assert(s@.subrange(n as int, n as int) =~= Seq::<char>::empty());
    }
    if start < n {
        let ghost before = views(out@);
        let ghost cur = s@.subrange(start as int, n as int);
        out.push(s.substring_char(start, n).to_owned());
        proof {
            assert(views(out@) =~= before.push(cur));
            assert(before + flush(cur) =~= before.push(cur));
        }
    } else {
        proof {
            assert(views(out@) + flush(s@.subrange(start as int, n as int)) =~= views(out@));
        }
    }
    out
}

/// The word holds an `=`.
pub open spec fn has_eq(w: Seq<char>) -> bool {
    exists|q: int| 0 <= q < w.len() && w[q] == '='
}

/// `p` is the position of the first `=` of the word.
pub open spec fn first_eq_at(w: Seq<char>, p: int) -> bool {
    &&& 0 <= p < w.len()
    &&& w[p] == '='
    &&& forall|q: int| 0 <= q < p ==> w[q] != '='
}

/// The variable name a `KEY=value` word sets: what stands before its first `=`.
pub open spec fn env_key(w: Seq<char>) -> Seq<char> {
    let p = choose|p: int| first_eq_at(w, p);
    w.subrange(0, p)
}

/// The value a `KEY=value` word sets: what stands after its first `=`.
pub open spec fn env_value(w: Seq<char>) -> Seq<char> {
    let p = choose|p: int| first_eq_at(w, p);
    w.subrange(p + 1, w.len() as int)
}

proof fn lemma_first_eq_unique(w: Seq<char>, p: int, q: int)
    requires
        first_eq_at(w, p),
        first_eq_at(w, q),
    ensures
        p == q,
{
}

/// The value that the `KEY=value` words give to the variable: that of the
/// last word setting it.
pub open spec fn env_setting(ws: Seq<Seq<char>>, key: Seq<char>) -> Option<Seq<char>>
    decreases ws.len(),
{
    if ws.len() == 0 {
        None
    } else if env_key(ws.last()) == key {
        Some(env_value(ws.last()))
    } else {
        env_setting(ws.drop_last(), key)
    }
}

/// `e` is the index of the command word: the first word without an `=`.
pub open spec fn command_at(ws: Seq<Seq<char>>, e: int) -> bool {
    &&& 0 <= e < ws.len()
    &&& !has_eq(ws[e])
    &&& forall|k: int| 0 <= k < e ==> has_eq(#[trigger] ws[k])
}

/// Every word of the command holds an `=`: there is no command word.
pub open spec fn no_command(command: Seq<char>) -> bool {
    let ws = words(command);
    forall|k: int| 0 <= k < ws.len() ==> has_eq(#[trigger] ws[k])
}

/// `config` is the local-process extension called `name` that the command
/// describes: the words before the first word without an `=` set its
/// environment, that word is its command and the words after it its
/// arguments; its timeout is the default.
pub open spec fn parsed_as(command: Seq<char>, name: Seq<char>, config: ExtensionConfig) -> bool {
    let ws = words(command);
    &&& config matches ExtensionConfig::Stdio { name: n, cmd, args, envs, timeout }
    &&& n@ == name
    &&& timeout == Some(DEFAULT_EXTENSION_TIMEOUT)
    &&& exists|e: int| {
        &&& command_at(ws, e)
        &&& cmd@ == ws[e]
        &&& views(args@) == ws.subrange(e + 1, ws.len() as int)
        &&& forall|key: Seq<char>| #[trigger] envs.get(key) == env_setting(ws.subrange(0, e), key)
    }
}

/// Why an extension command could not be read.
#[derive(PartialEq, Eq, Structural, Clone, Copy, Debug)]
pub enum CommandError {
    /// Only environment settings, or nothing, were given.
    NoCommand,
}

/// Splits a `KEY=value` word at its first `=`.
fn split_env(w: &String) -> (r: (String, String))
    requires
        has_eq(w@),
    ensures
        r.0@ == env_key(w@),
        r.1@ == env_value(w@),
{
    let s = w.as_str();
    let n = s.unicode_len();
    let mut p: usize = 0;
    while p < n && s.get_char(p) != '='
        invariant
            n == w@.len(),
            s@ == w@,
            p <= n,
            has_eq(w@),
            forall|q: int| 0 <= q < p ==> w@[q] != '=',
        decreases n - p,
    {
        p = p + 1;
    }
    proof {
        if p == n {
            let q = choose|q: int| 0 <= q < w@.len() && w@[q] == '=';
            assert(false);
        }
        assert(w@[p as int] == '=');
        assert(first_eq_at(w@, p as int));
        let c = choose|c: int| first_eq_at(w@, c);
        assert(first_eq_at(w@, c));
        lemma_first_eq_unique(w@, p as int, c);
    }
    (s.substring_char(0, p).to_owned(), s.substring_char(p + 1, n).to_owned())
}

/// Whether the word holds an `=`.
fn holds_eq(w: &String) -> (r: bool)
    ensures
        r == has_eq(w@),
{
    let s = w.as_str();
    let n = s.unicode_len();
    let mut p: usize = 0;
    while p < n
        invariant
            n == w@.len(),
            s@ == w@,
            p <= n,
            forall|q: int| 0 <= q < p ==> w@[q] != '=',
        decreases n - p,
    {
        if s.get_char(p) == '=' {
            return true;
        }
        p = p + 1;
    }
    false
}

/// Reads an extension command of the form `KEY=value ... command args...`
/// into the configuration of a local-process extension called `name`, with
/// the default timeout. The leading words that hold an `=` set environment
/// variables; the first word without one is the command, the rest its
/// arguments.
pub fn parse_extension_command(command: &str, name: String) -> (r: Result<ExtensionConfig, CommandError>)
    ensures
        r is Err <==> no_command(command@),
        r matches Ok(config) ==> parsed_as(command@, name@, config),
{
    let words_vec = split_words(command);
    let ghost ws = words(command@);
    let mut envs = Envs::new();
    let mut e: usize = 0;
    proof {
        assert(ws.len() == words_vec@.len());
    }
    proof {
        assert(ws.subrange(0, 0) =~= Seq::<Seq<char>>::empty());
    }
    while e < words_vec.len() && holds_eq(&words_vec[e])
        invariant
            views(words_vec@) == ws,
            ws.len() == words_vec@.len(),
            e <= ws.len(),
            forall|k: int| 0 <= k < e ==> has_eq(#[trigger] ws[k]),
            forall|key: Seq<char>| #[trigger] envs.get(key) == env_setting(ws.subrange(0, e as int), key),
        decreases ws.len() - e,
    {
        let (key, value) = split_env(&words_vec[e]);
        envs.insert(key, value);
        proof {
            assert(ws.subrange(0, e + 1).drop_last() =~= ws.subrange(0, e as int));
            assert(ws[e as int] == words_vec@[e as int]@);
        }
        e = e + 1;
    }
    if e == words_vec.len() {
        return Err(CommandError::NoCommand);
    }
    let cmd = words_vec[e].clone();
    let mut args: Vec<String> = Vec::new();
    let mut i: usize = e + 1;
    while i < words_vec.len()
        invariant
            views(words_vec@) == ws,
            ws.len() == words_vec@.len(),
            e < i <= ws.len(),
            args@.len() == i - (e + 1),
            forall|k: int| 0 <= k < args@.len() ==> (#[trigger] args@[k])@ == ws[e + 1 + k],
        decreases ws.len() - i,
    {
        let w = words_vec[i].clone();
        proof {
            assert(w@ == ws[i as int]);
        }
        args.push(w);
        i = i + 1;
    }
    proof {
        assert(views(args@) =~= ws.subrange(e + 1, ws.len() as int));
    }
    proof {
        assert(command_at(ws, e as int));
    }
    Ok(ExtensionConfig::Stdio { name, cmd, args, envs, timeout: Some(DEFAULT_EXTENSION_TIMEOUT) })
}

/// The command word and the arguments of a command line: its first word
/// (empty where there is none) and the words after it.
pub fn split_command(command: &str) -> (r: (String, Vec<String>))
    ensures
        ({
            let ws = words(command@);
            &&& ws.len() == 0 ==> r.0@.len() == 0 && r.1@.len() == 0
            &&& ws.len() > 0 ==> r.0@ == ws[0] && views(r.1@) == ws.drop_first()
        }),
{
    let words_vec = split_words(command);
    let ghost ws = words(command@);
    proof {
        assert(ws.len() == words_vec@.len());
    }
    if words_vec.len() == 0 {
        return (String::new(), Vec::new());
    }
    let cmd = words_vec[0].clone();
    let mut args: Vec<String> = Vec::new();
    let mut i: usize = 1;
    while i < words_vec.len()
        invariant
            views(words_vec@) == ws,
            ws.len() == words_vec@.len(),
            1 <= i <= ws.len(),
            args@.len() == i - 1,
            forall|k: int| 0 <= k < args@.len() ==> (#[trigger] args@[k])@ == ws[1 + k],
        decreases ws.len() - i,
    {
        let w = words_vec[i].clone();
        proof {
            assert(w@ == ws[i as int]);
        }
        args.push(w);
        i = i + 1;
    }
    proof {
        assert(views(args@) =~= ws.drop_first());
        assert(cmd@ == ws[0]);
    }
    (cmd, args)
}

/// The pieces of `s` between separators, the first continuing `cur`; empty pieces are kept.
pub open spec fn pieces_from(s: Seq<char>, sep: char, cur: Seq<char>) -> Seq<Seq<char>>
    decreases s.len(),
{
    if s.len() == 0 {
        seq![cur]
    } else if s[0] == sep {
        seq![cur] + pieces_from(s.drop_first(), sep, Seq::empty())
    } else {
        pieces_from(s.drop_first(), sep, cur.push(s[0]))
    }
}

/// The pieces of `s` between separators: one more than there are separators.
pub open spec fn pieces_on(s: Seq<char>, sep: char) -> Seq<Seq<char>> {
    pieces_from(s, sep, Seq::empty())
}

/// The pieces of `s` between commas.
pub open spec fn pieces(s: Seq<char>) -> Seq<Seq<char>> {
    pieces_on(s, ',')
}

/// Splits the text at each separator; empty pieces are kept.
pub fn split_on(text: &str, sep: char) -> (r: Vec<String>)
    ensures
        views(r@) == pieces_on(text@, sep),
{
    let n = text.unicode_len();
    let mut out: Vec<String> = Vec::new();
    let mut start: usize = 0;
    let mut i: usize = 0;
    proof {
        assert(text@.subrange(0, n as int) =~= text@);
        assert(text@.subrange(0, 0) =~= Seq::<char>::empty());
        assert(views(out@) + pieces_from(text@, sep, Seq::empty()) =~= pieces_on(text@, sep));
    }
    while i < n
        invariant
            n == text@.len(),
            start <= i <= n,
            views(out@) + pieces_from(text@.subrange(i as int, n as int), sep, text@.subrange(start as int, i as int))
                == pieces_on(text@, sep),
        decreases n - i,
    {
        let c = text.get_char(i);
        let ghost rest = text@.subrange(i as int, n as int);
        let ghost cur = text@.subrange(start as int, i as int);
        proof {
            assert(rest[0] == c);
            assert(rest.drop_first() =~= text@.subrange(i + 1, n as int));
        }
        if c == sep {
            let ghost before = views(out@);
            out.push(text.substring_char(start, i).to_owned());
            proof {
                let tail = pieces_from(text@.subrange(i + 1, n as int), sep, Seq::empty());
                assert(views(out@) =~= before.push(cur));
                assert(before.push(cur) + tail =~= before + (seq![cur] + tail));
            }
            start = i + 1;
            proof {
                assert(text@.subrange(start as int, i + 1) =~= Seq::<char>::empty());
            }
        } else {
            proof {
                assert(cur.push(c) =~= text@.subrange(start as int, i + 1));
            }
        }
        i = i + 1;
    }
    let ghost before = views(out@);
    let ghost cur = text@.subrange(start as int, n as int);
    proof {
        assert(text@.subrange(n as int, n as int) =~= Seq::<char>::empty());
    }
    out.push(text.substring_char(start, n).to_owned());
    proof {
        assert(views(out@) =~= before.push(cur));
        assert(before + seq![cur] =~= before.push(cur));
    }
    out
}

pub open spec fn trim_start(w: Seq<char>) -> Seq<char>
    decreases w.len(),
{
    if w.len() > 0 && white_space(w[0]) {
        trim_start(w.drop_first())
    } else {
        w
    }
}

pub open spec fn trim_end(w: Seq<char>) -> Seq<char>
    decreases w.len(),
{
    if w.len() > 0 && white_space(w.last()) {
        trim_end(w.drop_last())
    } else {
        w
    }
}

/// The text without its leading and trailing white space.
pub open spec fn trimmed(w: Seq<char>) -> Seq<char> {
    trim_end(trim_start(w))
}

/// The text without its leading and trailing white space.
pub fn trim(s: &str) -> (r: String)
    ensures
        r@ == trimmed(s@),
{
    let n = s.unicode_len();
    let mut a: usize = 0;
    proof {
        assert(s@.subrange(0, n as int) =~= s@);
    }
    while a < n && is_white_space(s.get_char(a))
        invariant
            n == s@.len(),
            a <= n,
            trim_start(s@) == trim_start(s@.subrange(a as int, n as int)),
        decreases n - a,
    {
        proof {
            assert(s@.subrange(a as int, n as int).drop_first() =~= s@.subrange(a + 1, n as int));
        }
        a = a + 1;
    }
    proof {
        if a < n {
            assert(s@.subrange(a as int, n as int)[0] == s@[a as int]);
        }
    }
    let mut b: usize = n;
    while b > a && is_white_space(s.get_char(b - 1))
        invariant
            n == s@.len(),
            a <= b <= n,
            trim_start(s@) == s@.subrange(a as int, n as int),
            trimmed(s@) == trim_end(s@.subrange(a as int, b as int)),
        decreases b,
    {
        proof {
            assert(s@.subrange(a as int, b as int).drop_last() =~= s@.subrange(a as int, b - 1));
        }
        b = b - 1;
    }
    s.substring_char(a, b).to_owned()
}

/// The names of a comma-separated list of builtin extensions, each without
/// its surrounding white space.
pub fn builtin_names(list: &str) -> (r: Vec<String>)
    ensures
        views(r@) == pieces(list@).map_values(|p: Seq<char>| trimmed(p)),
{
    let parts = split_on(list, ',');
    let ghost ps = pieces(list@);
    let mut out: Vec<String> = Vec::new();
    let mut i: usize = 0;
    proof {
        assert(views(parts@).len() == parts@.len());
    }
    while i < parts.len()
        invariant
            i <= parts@.len(),
            ps == pieces(list@),
            views(parts@) == ps,
            parts@.len() == ps.len(),
            out@.len() == i,
            forall|k: int| 0 <= k < i ==> (#[trigger] out@[k])@ == trimmed(ps[k]),
        decreases parts@.len() - i,
    {
        proof {
            assert(views(parts@)[i as int] == parts@[i as int]@);
        }
        out.push(trim(parts[i].as_str()));
        i = i + 1;
    }
    proof {
        assert(views(out@) =~= ps.map_values(|p: Seq<char>| trimmed(p)));
    }
    out
}

} // verus!
