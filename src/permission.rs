//! The permission check: whether a proposed tool call may run, must be
//! confirmed by a human first, or may not run at all.
use vstd::prelude::*;

verus! {

/// How freely the agent may use tools.
#[derive(PartialEq, Eq, Structural, Clone, Copy, Debug)]
pub enum Mode {
    /// Every tool call runs without confirmation.
    Auto,
    /// Read-only or previously approved tools run; others need confirmation.
    Approve,
    /// No tool call runs.
    Chat,
}

impl Mode {
    /// The word that names the mode.
    pub fn as_str(&self) -> (r: &'static str)
        ensures
            mode_named(r@) == Some(*self),
    {
        proof {
            reveal_strlit("auto");
            reveal_strlit("approve");
            reveal_strlit("chat");
        }
        let r = match self {
            Mode::Auto => "auto",
            Mode::Approve => "approve",
            Mode::Chat => "chat",
        };
        proof {
            assert("approve"@ != "auto"@) by {
                assert("approve"@.len() != "auto"@.len());
            }
            assert("chat"@ != "auto"@) by {
                assert("chat"@[0] != "auto"@[0]);
            }
            assert("chat"@ != "approve"@) by {
                assert("chat"@.len() != "approve"@.len());
            }
        }
        r
    }
}

/// What the permission check decides for one tool call.
#[derive(PartialEq, Eq, Structural, Clone, Copy, Debug)]
pub enum Verdict {
    Forbidden,
    Proceed,
    Confirm,
}

pub open spec fn verdict_spec(mode: Mode, read_only: bool, approved_before: bool) -> Verdict {
    match mode {
        Mode::Chat => Verdict::Forbidden,
        Mode::Auto => Verdict::Proceed,
        Mode::Approve => if read_only || approved_before {
            Verdict::Proceed
        } else {
            Verdict::Confirm
        },
    }
}

/// The decision for a tool call under `mode`, given whether the tool is
/// read-only and whether it was approved before.
pub fn decide(mode: Mode, read_only: bool, approved_before: bool) -> (g: Verdict)
    ensures
        g == verdict_spec(mode, read_only, approved_before),
{
    match mode {
        Mode::Chat => Verdict::Forbidden,
        Mode::Auto => Verdict::Proceed,
        Mode::Approve => if read_only || approved_before {
            Verdict::Proceed
        } else {
            Verdict::Confirm
        },
    }
}

/// The mode that a lower-case word names, if it names one.
pub open spec fn mode_named(s: Seq<char>) -> Option<Mode> {
    if s == "auto"@ {
        Some(Mode::Auto)
    } else if s == "approve"@ {
        Some(Mode::Approve)
    } else if s == "chat"@ {
        Some(Mode::Chat)
    } else {
        None
    }
}

/// What `str::to_lowercase` returns for the text.
pub uninterp spec fn lower_of(s: Seq<char>) -> Seq<char>;

/// Relies on `str::to_lowercase`: the lowercase equivalent of the text,
/// which depends on the text alone; an empty text stays empty.
#[verifier::external_body]
pub(crate) fn lowercase(s: &str) -> (r: String)
    ensures
        r@ == lower_of(s@),
        s@.len() == 0 ==> r@.len() == 0,
{
    s.to_lowercase()
}

/// The mode named by a word, in any case: `auto`, `approve` or `chat`.
pub fn parse_mode(s: &str) -> (r: Option<Mode>)
    ensures
        r == mode_named(lower_of(s@)),
{
    let lower = lowercase(s);
    mode_from_lowercase(lower.as_str())
}

/// The mode named by an already lower-cased word.
pub fn mode_from_lowercase(s: &str) -> (r: Option<Mode>)
    ensures
        r == mode_named(s@),
{
    let t = s.to_owned();
    if t == String::from_str("auto") {
        Some(Mode::Auto)
    } else if t == String::from_str("approve") {
        Some(Mode::Approve)
    } else if t == String::from_str("chat") {
        Some(Mode::Chat)
    } else {
        None
    }
}

/// The decisions recorded for tools, by tool name; a later record of the
/// same tool overrides an earlier one.
#[derive(Debug)]
pub struct PermissionStore {
    records: Vec<(String, bool)>,
}

pub open spec fn lookup(records: Seq<(String, bool)>, tool: Seq<char>) -> Option<bool>
    decreases records.len(),
{
    if records.len() == 0 {
        None
    } else if records.last().0@ == tool {
        Some(records.last().1)
    } else {
        lookup(records.drop_last(), tool)
    }
}

impl PermissionStore {
    /// The recorded decision for the tool, if any: `true` for approved.
    pub closed spec fn recorded(&self, tool: Seq<char>) -> Option<bool> {
        lookup(self.records@, tool)
    }

    pub fn new() -> (s: PermissionStore)
        ensures
            forall|t: Seq<char>| s.recorded(t) == None::<bool>,
    {
        PermissionStore { records: Vec::new() }
    }

    /// Records a decision on the tool.
    pub fn record(&mut self, tool: String, approved: bool)
        ensures
            final(self).recorded(tool@) == Some(approved),
            forall|t: Seq<char>| t != tool@ ==> final(self).recorded(t) == old(self).recorded(t),
    {
        self.records.push((tool, approved));
        proof {
            assert(self.records@.drop_last() =~= old(self).records@);
        }
    }

    /// Whether the tool was approved at its last recorded decision.
    pub fn approved(&self, tool: &str) -> (r: bool)
        ensures
            r == (self.recorded(tool@) == Some(true)),
    {
        let wanted = tool.to_owned();
        let mut i: usize = self.records.len();
        proof {
            assert(self.records@.subrange(0, i as int) =~= self.records@);
        }
        while i > 0
            invariant
                i <= self.records@.len(),
                wanted@ == tool@,
                lookup(self.records@, tool@) == lookup(self.records@.subrange(0, i as int), tool@),
            decreases i,
        {
            let ghost sub = self.records@.subrange(0, i as int);
            if self.records[i - 1].0 == wanted {
                return self.records[i - 1].1;
            }
            proof {
                assert(sub.drop_last() =~= self.records@.subrange(0, i - 1));
            }
            i = i - 1;
        }
        false
    }
}

} // verus!
