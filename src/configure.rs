//! The decisions of the configuration commands: checking what the operator
//! typed, and what enabling, disabling or removing extensions amounts to.
use vstd::prelude::*;
use crate::extension::{is_valid_uri, valid_uri, ExtensionConfig, ExtensionEntry, DEFAULT_EXTENSION_TIMEOUT};

verus! {

/// Why a typed value was refused.
#[derive(PartialEq, Eq, Structural, Clone, Copy, Debug)]
pub enum InputProblem {
    Empty,
    NameTaken,
    NotHttp,
    NotANumber,
}

impl InputProblem {
    /// The message shown to the operator.
    pub fn message(&self) -> (r: &'static str)
        ensures
            *self == InputProblem::NameTaken ==> r@ == "An extension with this name already exists"@,
            *self == InputProblem::NotHttp ==> r@ == "URI should start with http:// or https://"@,
    {
        match self {
            InputProblem::Empty => "Please enter a value",
            InputProblem::NameTaken => "An extension with this name already exists",
            InputProblem::NotHttp => "URI should start with http:// or https://",
            InputProblem::NotANumber => "Please enter a valid timeout",
        }
    }
}

/// Some string of the list has this text.
pub open spec fn listed(names: Seq<String>, name: Seq<char>) -> bool {
    exists|i: int| 0 <= i < names.len() && (#[trigger] names[i])@ == name
}

/// A new extension's name must not be empty nor taken.
pub fn validate_extension_name(input: &str, existing: &Vec<String>) -> (r: Result<(), InputProblem>)
    ensures
        input@.len() == 0 ==> r == Err::<(), InputProblem>(InputProblem::Empty),
        input@.len() > 0 && listed(existing@, input@) ==> r == Err::<(), InputProblem>(InputProblem::NameTaken),
        input@.len() > 0 && !listed(existing@, input@) ==> r is Ok,
{
    if input.unicode_len() == 0 {
        return Err(InputProblem::Empty);
    }
    let wanted = input.to_owned();
    let mut i: usize = 0;
    while i < existing.len()
        invariant
            i <= existing@.len(),
            wanted@ == input@,
            input@.len() > 0,
            forall|k: int| 0 <= k < i ==> (#[trigger] existing@[k])@ != input@,
        decreases existing@.len() - i,
    {
        if existing[i] == wanted {
            return Err(InputProblem::NameTaken);
        }
        i = i + 1;
    }
    Ok(())
}

/// A command must not be empty.
pub fn validate_command(input: &str) -> (r: Result<(), InputProblem>)
    ensures
        input@.len() == 0 <==> r == Err::<(), InputProblem>(InputProblem::Empty),
        input@.len() > 0 <==> r is Ok,
{
    if input.unicode_len() == 0 {
        Err(InputProblem::Empty)
    } else {
        Ok(())
    }
}

/// A remote extension's URI must not be empty and must be an http or https one.
pub fn validate_uri(input: &str) -> (r: Result<(), InputProblem>)
    ensures
        input@.len() == 0 ==> r == Err::<(), InputProblem>(InputProblem::Empty),
        input@.len() > 0 && !valid_uri(input@) ==> r == Err::<(), InputProblem>(InputProblem::NotHttp),
        r is Ok <==> valid_uri(input@),
{
    proof {
        reveal_strlit("http://");
        reveal_strlit("https://");
    }
    if input.unicode_len() == 0 {
        Err(InputProblem::Empty)
    } else if !is_valid_uri(input) {
        Err(InputProblem::NotHttp)
    } else {
        Ok(())
    }
}

/// The extension enabled on the first run: the developer builtin.
pub fn first_run_extension() -> (e: ExtensionEntry)
    ensures
        e.enabled,
        e.config matches ExtensionConfig::Builtin { name, timeout } && name@ == "developer"@ && timeout == Some(
            DEFAULT_EXTENSION_TIMEOUT,
        ),
{
    ExtensionEntry {
        enabled: true,
        config: ExtensionConfig::Builtin {
            name: String::from_str("developer"),
            timeout: Some(DEFAULT_EXTENSION_TIMEOUT),
        },
    }
}

pub open spec fn is_digit(c: char) -> bool {
    '0' <= c <= '9'
}

/// The number that a string of decimal digits writes.
pub open spec fn decimal(s: Seq<char>) -> int
    decreases s.len(),
{
    if s.len() == 0 {
        0
    } else {
        decimal(s.drop_last()) * 10 + (s.last() as int - '0' as int)
    }
}

/// The digits of a number as `str::parse::<u64>` reads them: without a leading `+`.
pub open spec fn unsigned_body(s: Seq<char>) -> Seq<char> {
    if s.len() > 0 && s[0] == '+' {
        s.drop_first()
    } else {
        s
    }
}

/// The text is a number that fits in 64 bits.
pub open spec fn is_u64_text(s: Seq<char>) -> bool {
    let b = unsigned_body(s);
    &&& b.len() > 0
    &&& forall|i: int| 0 <= i < b.len() ==> is_digit(#[trigger] b[i])
    &&& decimal(b) <= u64::MAX
}

proof fn lemma_decimal_grows(s: Seq<char>, i: int)
    requires
        0 <= i <= s.len(),
        forall|k: int| 0 <= k < s.len() ==> is_digit(#[trigger] s[k]),
    ensures
        decimal(s.subrange(0, i)) <= decimal(s),
        0 <= decimal(s.subrange(0, i)),
    decreases s.len(),
{
    if s.len() > 0 {
        if i == s.len() {
            assert(s.subrange(0, i) =~= s);
            lemma_decimal_grows(s.drop_last(), s.len() - 1);
            assert(s.drop_last().subrange(0, s.len() - 1) =~= s.drop_last());
        } else {
            lemma_decimal_grows(s.drop_last(), i);
            assert(s.drop_last().subrange(0, i) =~= s.subrange(0, i));
            lemma_decimal_grows(s.drop_last(), s.len() - 1);
            assert(s.drop_last().subrange(0, s.len() - 1) =~= s.drop_last());
        }
    } else {
        assert(s.subrange(0, i) =~= s);
    }
}

/// Reads a timeout in seconds as `str::parse::<u64>` does: decimal digits,
/// optionally after a `+`, whose value fits in 64 bits.
pub fn parse_timeout(input: &str) -> (r: Option<u64>)
    ensures
        r is Some <==> is_u64_text(input@),
        r matches Some(v) ==> v == decimal(unsigned_body(input@)),
{
    let n = input.unicode_len();
    let mut i: usize = 0;
    if n > 0 && input.get_char(0) == '+' {
        i = 1;
    }
    let ghost body = unsigned_body(input@);
    proof {
        assert(body =~= input@.subrange(i as int, n as int));
    }
    if i == n {
        return None;
    }
    let start = i;
    let mut v: u64 = 0;
    proof {
        assert(body.subrange(0, 0) =~= Seq::<char>::empty());
    }
    while i < n
        invariant
            n == input@.len(),
            start <= i <= n,
            start < n,
            body == input@.subrange(start as int, n as int),
            body == unsigned_body(input@),
            forall|k: int| 0 <= k < i - start ==> is_digit(#[trigger] body[k]),
            v == decimal(body.subrange(0, i - start)),
        decreases n - i,
    {
        let c = input.get_char(i);
        proof {
            assert(body[i - start] == c);
        }
        if c < '0' || c > '9' {
            proof {
                assert(!is_digit(body[i - start]));
            }
            return None;
        }
        let d = (c as u32 - '0' as u32) as u64;
        proof {
            assert(body.subrange(0, i - start + 1).drop_last() =~= body.subrange(0, i - start));
            assert(decimal(body.subrange(0, i - start + 1)) == v * 10 + d);
        }
        if v > (u64::MAX - d) / 10 {
            proof {
                assert(v * 10 + d > u64::MAX) by (nonlinear_arith)
                    requires
                        v > (u64::MAX - d) / 10,
                        d <= 9,
                ;
                if forall|k: int| 0 <= k < body.len() ==> is_digit(#[trigger] body[k]) {
                    lemma_decimal_grows(body, i - start + 1);
                }
            }
            return None;
        }
        proof {
            assert(v * 10 + d <= u64::MAX) by (nonlinear_arith)
                requires
                    v <= (u64::MAX - d) / 10,
                    d <= 9,
            ;
        }
        v = v * 10 + d;
        i = i + 1;
    }
    proof {
        assert(body.subrange(0, n - start) =~= body);
    }
    Some(v)
}

/// What the removal dialog can offer.
#[derive(Debug)]
pub enum RemovalPlan {
    /// No extension is configured.
    NothingConfigured,
    /// Every extension is enabled; only disabled ones can be removed.
    AllEnabled,
    /// The names of the disabled extensions, which may be removed.
    Choose(Vec<String>),
}

/// The names of the disabled entries, in order.
pub open spec fn disabled_names(entries: Seq<(String, bool)>) -> Seq<Seq<char>>
    decreases entries.len(),
{
    if entries.len() == 0 {
        Seq::empty()
    } else if entries.last().1 {
        disabled_names(entries.drop_last())
    } else {
        disabled_names(entries.drop_last()).push(entries.last().0@)
    }
}

/// What may be removed among extensions given by name and whether each is enabled.
pub fn plan_removal(entries: &Vec<(String, bool)>) -> (r: RemovalPlan)
    ensures
        entries@.len() == 0 <==> r is NothingConfigured,
        (entries@.len() > 0 && forall|i: int| 0 <= i < entries@.len() ==> (#[trigger] entries@[i]).1) <==> r is AllEnabled,
        r matches RemovalPlan::Choose(names) ==> names@.map_values(|s: String| s@) == disabled_names(entries@),
{
    if entries.len() == 0 {
        return RemovalPlan::NothingConfigured;
    }
    let mut names: Vec<String> = Vec::new();
    let mut i: usize = 0;
    proof {
        assert(entries@.subrange(0, 0) =~= Seq::<(String, bool)>::empty());
        assert(names@.map_values(|s: String| s@) =~= Seq::<Seq<char>>::empty());
    }
    while i < entries.len()
        invariant
            i <= entries@.len(),
            names@.map_values(|s: String| s@) == disabled_names(entries@.subrange(0, i as int)),
            names@.len() == 0 <==> forall|k: int| 0 <= k < i ==> (#[trigger] entries@[k]).1,
        decreases entries@.len() - i,
    {
        proof {
            assert(entries@.subrange(0, i + 1).drop_last() =~= entries@.subrange(0, i as int));
        }
        if !entries[i].1 {
            let ghost before = names@;
            names.push(entries[i].0.clone());
            proof {
                assert(names@.map_values(|s: String| s@) =~= before.map_values(|s: String| s@).push(entries@[i as int].0@));
            }
        }
        i = i + 1;
    }
    proof {
        assert(entries@.subrange(0, entries@.len() as int) =~= entries@);
    }
    if names.len() == 0 {
        RemovalPlan::AllEnabled
    } else {
        RemovalPlan::Choose(names)
    }
}

/// Each name with whether it is to be enabled: exactly when it was selected.
pub fn toggled(names: &Vec<String>, selected: &Vec<String>) -> (r: Vec<(String, bool)>)
    ensures
        r@.len() == names@.len(),
        forall|i: int|
            0 <= i < r@.len() ==> (#[trigger] r@[i]).0@ == names@[i]@ && r@[i].1 == listed(selected@, names@[i]@),
{
    let mut out: Vec<(String, bool)> = Vec::new();
    let mut i: usize = 0;
    while i < names.len()
        invariant
            i <= names@.len(),
            out@.len() == i,
            forall|k: int|
                0 <= k < i ==> (#[trigger] out@[k]).0@ == names@[k]@ && out@[k].1 == listed(selected@, names@[k]@),
        decreases names@.len() - i,
    {
        let enabled = contains_text(selected, &names[i]);
        out.push((names[i].clone(), enabled));
        i = i + 1;
    }
    out
}

/// Whether the list holds a string with the same text.
pub fn contains_text(names: &Vec<String>, name: &String) -> (r: bool)
    ensures
        r == listed(names@, name@),
{
    let mut i: usize = 0;
    while i < names.len()
        invariant
            i <= names@.len(),
            forall|k: int| 0 <= k < i ==> (#[trigger] names@[k])@ != name@,
        decreases names@.len() - i,
    {
        if names[i] == *name {
            return true;
        }
        i = i + 1;
    }
    false
}

} // verus!
