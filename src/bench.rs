//! The search-and-replace evaluation: what it asks of the agent and how it
//! judges the agent's change of the file against the expected patch.
use vstd::prelude::*;
use crate::command::{pieces_on, split_on, views};

verus! {

/// The line without a carriage return at its end.
pub open spec fn strip_cr(l: Seq<char>) -> Seq<char> {
    if l.len() > 0 && l.last() == '\r' {
        l.drop_last()
    } else {
        l
    }
}

/// The lines of a text as `str::lines` gives them: split at each line feed,
/// a carriage return before a line feed dropped, no empty line after a
/// final line feed.
pub open spec fn text_lines(s: Seq<char>) -> Seq<Seq<char>> {
    let p = pieces_on(s, '\n');
    let init = p.drop_last().map_values(|l: Seq<char>| strip_cr(l));
    if p.last().len() == 0 {
        init
    } else {
        init.push(p.last())
    }
}

/// The lines joined with line feeds between them.
pub open spec fn joined(ls: Seq<Seq<char>>) -> Seq<char>
    decreases ls.len(),
{
    if ls.len() == 0 {
        Seq::empty()
    } else if ls.len() == 1 {
        ls[0]
    } else {
        joined(ls.drop_last()) + "\n"@ + ls.last()
    }
}

/// The text without the header of a diff: its lines after the first four,
/// joined with line feeds.
pub open spec fn diff_body(s: Seq<char>) -> Seq<char> {
    let ls = text_lines(s);
    if ls.len() <= 4 {
        Seq::empty()
    } else {
        joined(ls.subrange(4, ls.len() as int))
    }
}

fn strip_carriage_return(l: &String) -> (r: String)
    ensures
        r@ == strip_cr(l@),
{
    let s = l.as_str();
    let n = s.unicode_len();
    if n > 0 && s.get_char(n - 1) == '\r' {
        s.substring_char(0, n - 1).to_owned()
    } else {
        l.clone()
    }
}

/// The lines of the text, as `str::lines` gives them.
pub fn lines_of(text: &str) -> (r: Vec<String>)
    ensures
        views(r@) == text_lines(text@),
{
    let parts = split_on(text, '\n');
    let ghost p = pieces_on(text@, '\n');
    proof {
        assert(views(parts@).len() == parts@.len());
        assert(p.len() > 0) by {
            lemma_pieces_nonempty(text@, '\n', Seq::empty());
        }
    }
    let last = parts.len() - 1;
    let mut out: Vec<String> = Vec::new();
    let mut i: usize = 0;
    while i < last
        invariant
            i <= last,
            last == parts@.len() - 1,
            p == pieces_on(text@, '\n'),
            views(parts@) == p,
            parts@.len() == p.len(),
            out@.len() == i,
            forall|k: int| 0 <= k < i ==> (#[trigger] out@[k])@ == strip_cr(p[k]),
        decreases last - i,
    {
        proof {
            assert(views(parts@)[i as int] == parts@[i as int]@);
        }
        out.push(strip_carriage_return(&parts[i]));
        i = i + 1;
    }
    proof {
        assert(views(parts@)[last as int] == parts@[last as int]@);
        assert(views(out@) =~= p.drop_last().map_values(|l: Seq<char>| strip_cr(l)));
    }
    if parts[last].as_str().unicode_len() > 0 {
        let ghost before = out@;
        out.push(parts[last].clone());
        proof {
            assert(views(out@) =~= views(before).push(p.last()));
        }
    }
    out
}

proof fn lemma_pieces_nonempty(s: Seq<char>, sep: char, cur: Seq<char>)
    ensures
        crate::command::pieces_from(s, sep, cur).len() > 0,
    decreases s.len(),
{
    if s.len() > 0 {
        if s[0] == sep {
            lemma_pieces_nonempty(s.drop_first(), sep, Seq::empty());
        } else {
            lemma_pieces_nonempty(s.drop_first(), sep, cur.push(s[0]));
        }
    }
}

/// The text with the first four lines of a diff (its header) left out.
pub fn strip_diff_header(text: &str) -> (r: String)
    ensures
        r@ == diff_body(text@),
{
    let ls = lines_of(text);
    let ghost all = text_lines(text@);
    proof {
        assert(views(ls@).len() == ls@.len());
    }
    if ls.len() <= 4 {
        return String::new();
    }
    let mut out = ls[4].clone();
    let mut i: usize = 5;
    proof {
        assert(views(ls@)[4] == ls@[4]@);
        let q = all.subrange(4, 5);
        assert(q.len() == 1);
        assert(joined(q) == q[0]);
    }
    while i < ls.len()
        invariant
            5 <= i <= ls@.len(),
            views(ls@) == all,
            ls@.len() == all.len(),
            out@ == joined(all.subrange(4, i as int)),
        decreases ls@.len() - i,
    {
        proof {
            assert(views(ls@)[i as int] == ls@[i as int]@);
            assert(all.subrange(4, i + 1).drop_last() =~= all.subrange(4, i as int));
        }
        out.append("\n");
        out.append(ls[i].as_str());
        i = i + 1;
    }
    out
}

/// Whether the agent's change is the expected one: the diff it produced and
/// the expected patch agree once their headers are left out.
pub fn changes_match(expected_patch: &str, actual_diff: &str) -> (r: bool)
    ensures
        r == (diff_body(expected_patch@) == diff_body(actual_diff@)),
{
    let a = strip_diff_header(expected_patch);
    let b = strip_diff_header(actual_diff);
    a == b
}

/// The extensions an evaluation needs.
#[derive(Debug)]
pub struct ExtensionRequirements {
    pub builtin: Vec<String>,
    pub external: Vec<String>,
}

/// The evaluation in which the agent replaces a definition block of a large
/// JSON file and the result is compared with a known patch.
#[derive(Debug)]
pub struct DeveloperSearchReplace {}

impl DeveloperSearchReplace {
    pub fn new() -> (r: DeveloperSearchReplace) {
        DeveloperSearchReplace {}
    }

    /// The evaluation's name.
    pub fn name(&self) -> (r: &'static str)
        ensures
            r@ == "developer_search_replace"@,
    {
        "developer_search_replace"
    }

    /// It needs the developer builtin and nothing else.
    pub fn required_extensions(&self) -> (r: ExtensionRequirements)
        ensures
            r.builtin@.len() == 1,
            r.builtin@[0]@ == "developer"@,
            r.external@.len() == 0,
    {
        let mut builtin: Vec<String> = Vec::new();
        builtin.push(String::from_str("developer"));
        ExtensionRequirements { builtin, external: Vec::new() }
    }

    /// The instruction given to the agent.
    pub fn prompt(&self) -> (r: &'static str) {
        "Remove the io.k8s.api.admissionregistration.v1.ServiceReference definition block and replace with a new definition for io.k8s.api.admissionregistration.v1.FakeServiceReference. Update the fields in the definition as well to be consistent. Don't change the property names. Don't update any references to the old definition. Only modify the definition and it's description to 'FakeServiceReference simulates a reference to a fake service for testing purposes.'.The file to modify is kubernetes_swagger.json."
    }
}

} // verus!
