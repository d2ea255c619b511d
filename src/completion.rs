//! The completion index: prompt names and their metadata, by extension,
//! rebuilt wholesale from the registry's listing and cleared whenever the
//! registry changes. It only serves suggestions while typing.
use vstd::prelude::*;
use crate::command::views;
use crate::extension::{Prompt, PromptArgument, Registered};

verus! {

/// What is known of a prompt, and the extension that offers it.
#[derive(Debug)]
pub struct PromptInfo {
    pub name: String,
    pub description: Option<String>,
    pub arguments: Vec<PromptArgument>,
    pub extension: Option<String>,
}

/// The info describes the prompt, offered by the extension `ext`.
pub open spec fn describes(info: PromptInfo, ext: Seq<char>, p: Prompt) -> bool {
    &&& info.name@ == p.name@
    &&& info.description == p.description
    &&& info.arguments@ == p.arguments@
    &&& info.extension matches Some(e) && e@ == ext
}

pub open spec fn opt_view(o: Option<String>) -> Option<Seq<char>> {
    match o {
        Some(s) => Some(s@),
        None => None,
    }
}

/// The prompt names of a list of prompts.
pub open spec fn prompt_names(ps: Seq<Prompt>) -> Seq<Seq<char>> {
    ps.map_values(|p: Prompt| p.name@)
}

/// Every prompt of the listing with the extension that offers it, one
/// extension after the other.
pub open spec fn listed_prompts(exts: Seq<Registered>) -> Seq<(Seq<char>, Prompt)>
    decreases exts.len(),
{
    if exts.len() == 0 {
        Seq::empty()
    } else {
        let e = exts.last();
        listed_prompts(exts.drop_last()) + e.prompts@.map_values(|p: Prompt| (e.config.name_spec(), p))
    }
}

/// Builds the info of a prompt offered by an extension.
pub fn prompt_info(ext: &String, p: &Prompt) -> (r: PromptInfo)
    ensures
        describes(r, ext@, *p),
{
    let arguments = p.arguments.clone();
    proof {
        assert(arguments@ =~= p.arguments@);
    }
    PromptInfo {
        name: p.name.clone(),
        description: match &p.description {
            Some(d) => Some(d.clone()),
            None => None,
        },
        arguments,
        extension: Some(ext.clone()),
    }
}

/// The prompt names by extension and the info of each prompt.
#[derive(Debug)]
pub struct CompletionCache {
    prompts: Vec<(String, Vec<String>)>,
    prompt_info: Vec<PromptInfo>,
    last_updated: u64,
}

impl CompletionCache {
    /// The prompt names of each extension.
    pub closed spec fn prompt_lists(&self) -> Seq<(Seq<char>, Seq<Seq<char>>)> {
        self.prompts@.map_values(|e: (String, Vec<String>)| (e.0@, views(e.1@)))
    }

    /// The info of each prompt; for a name listed twice the later one counts.
    pub closed spec fn infos(&self) -> Seq<PromptInfo> {
        self.prompt_info@
    }

    /// When the cache was last rebuilt or cleared.
    pub closed spec fn updated_at(&self) -> u64 {
        self.last_updated
    }

    pub open spec fn is_empty(&self) -> bool {
        self.prompt_lists().len() == 0 && self.infos().len() == 0
    }

    /// The cache holds the prompts of the extensions.
    pub open spec fn built_from(&self, exts: Seq<Registered>) -> bool {
        let all = listed_prompts(exts);
        &&& self.prompt_lists().len() == exts.len()
        &&& forall|i: int|
            0 <= i < exts.len() ==> (#[trigger] self.prompt_lists()[i]).0 == exts[i].config.name_spec()
                && self.prompt_lists()[i].1 == prompt_names(exts[i].prompts@)
        &&& self.infos().len() == all.len()
        &&& forall|k: int| 0 <= k < all.len() ==> describes(#[trigger] self.infos()[k], all[k].0, all[k].1)
    }

    /// The two caches hold the same prompt lists and the same prompt info.
    pub open spec fn same_content(&self, other: CompletionCache) -> bool {
        &&& self.prompt_lists() == other.prompt_lists()
        &&& self.infos().len() == other.infos().len()
        &&& forall|k: int|
            0 <= k < self.infos().len() ==> {
                let a = #[trigger] self.infos()[k];
                let b = other.infos()[k];
                a.name@ == b.name@ && a.description == b.description && a.arguments@ == b.arguments@
                    && opt_view(a.extension) == opt_view(b.extension)
            }
    }

    /// An empty cache, never refreshed.
    pub fn new() -> (c: CompletionCache)
        ensures
            c.is_empty(),
            c.updated_at() == 0,
    {
        let c = CompletionCache { prompts: Vec::new(), prompt_info: Vec::new(), last_updated: 0 };
        proof {
            assert(c.prompt_lists() =~= Seq::<(Seq<char>, Seq<Seq<char>>)>::empty());
        }
        c
    }

    /// Clears the cache.
    pub fn invalidate(&mut self, now: u64)
        ensures
            final(self).is_empty(),
            final(self).updated_at() == now,
    {
        self.prompts.clear();
        self.prompt_info.clear();
        self.last_updated = now;
        proof {
            assert(self.prompt_lists() =~= Seq::<(Seq<char>, Seq<Seq<char>>)>::empty());
        }
    }

    /// Rebuilds the cache from the prompts of the extensions.
    pub fn refresh(&mut self, listing: &Vec<Registered>, now: u64)
        ensures
            final(self).built_from(listing@),
            final(self).updated_at() == now,
    {
        self.prompts.clear();
        self.prompt_info.clear();
        let mut i: usize = 0;
        proof {
            assert(listing@.subrange(0, 0) =~= Seq::<Registered>::empty());
        }
        while i < listing.len()
            invariant
                i <= listing@.len(),
                self.prompts@.len() == i,
                forall|k: int|
                    0 <= k < i ==> (#[trigger] self.prompts@[k]).0@ == listing@[k].config.name_spec() && views(self.prompts@[k].1@)
                        == prompt_names(listing@[k].prompts@),
                self.prompt_info@.len() == listed_prompts(listing@.subrange(0, i as int)).len(),
                forall|k: int|
                    0 <= k < self.prompt_info@.len() ==> describes(
                        #[trigger] self.prompt_info@[k],
                        listed_prompts(listing@.subrange(0, i as int))[k].0,
                        listed_prompts(listing@.subrange(0, i as int))[k].1,
                    ),
            decreases listing@.len() - i,
        {
            let ext = listing[i].config.name();
            let ps = &listing[i].prompts;
            let ghost prev = listed_prompts(listing@.subrange(0, i as int));
            let ghost base = self.prompt_info@.len();
            let mut names: Vec<String> = Vec::new();
            let mut j: usize = 0;
            while j < ps.len()
                invariant
                    j <= ps@.len(),
                    i < listing@.len(),
                    ext@ == listing@[i as int].config.name_spec(),
                    ps@ == listing@[i as int].prompts@,
                    self.prompts@.len() == i,
                    forall|k: int|
                        0 <= k < i ==> (#[trigger] self.prompts@[k]).0@ == listing@[k].config.name_spec() && views(self.prompts@[k].1@)
                            == prompt_names(listing@[k].prompts@),
                    names@.len() == j,
                    forall|k: int| 0 <= k < j ==> (#[trigger] names@[k])@ == ps@[k].name@,
                    self.prompt_info@.len() == base + j,
                    base == prev.len(),
                    forall|k: int| 0 <= k < base ==> describes(#[trigger] self.prompt_info@[k], prev[k].0, prev[k].1),
                    forall|k: int|
                        0 <= k < j ==> describes(#[trigger] self.prompt_info@[base + k], ext@, ps@[k]),
                decreases ps@.len() - j,
            {
                names.push(ps[j].name.clone());
                let info = prompt_info(ext, &ps[j]);
                self.prompt_info.push(info);
                j = j + 1;
            }
            proof {
                assert(views(names@) =~= prompt_names(ps@));
                assert(listing@.subrange(0, i + 1).drop_last() =~= listing@.subrange(0, i as int));
                let next = listed_prompts(listing@.subrange(0, i + 1));
                assert(next == prev + ps@.map_values(|p: Prompt| (ext@, p)));
                assert forall|k: int| 0 <= k < self.prompt_info@.len() implies describes(
                    #[trigger] self.prompt_info@[k],
                    next[k].0,
                    next[k].1,
                ) by {
                    if k >= base {
                        assert(describes(self.prompt_info@[base + (k - base)], ext@, ps@[k - base]));
                    }
                }
            }
            self.prompts.push((ext.clone(), names));
            i = i + 1;
        }
        self.last_updated = now;
        proof {
            assert(listing@.subrange(0, listing@.len() as int) =~= listing@);
        }
    }

    /// The prompt names of each extension, for suggestions.
    pub fn prompts(&self) -> (r: &Vec<(String, Vec<String>)>)
        ensures
            r@.map_values(|e: (String, Vec<String>)| (e.0@, views(e.1@))) == self.prompt_lists(),
    {
        &self.prompts
    }

    /// The info of the prompt of this name, if the cache holds one; for a
    /// name listed twice, the later.
    pub fn info(&self, name: &String) -> (r: Option<&PromptInfo>)
        ensures
            r is None <==> forall|k: int| 0 <= k < self.infos().len() ==> (#[trigger] self.infos()[k]).name@ != name@,
            r matches Some(info) ==> exists|k: int|
                0 <= k < self.infos().len() && *info == #[trigger] self.infos()[k] && info.name@ == name@
                    && forall|m: int| k < m < self.infos().len() ==> (#[trigger] self.infos()[m]).name@ != name@,
    {
        let mut i: usize = self.prompt_info.len();
        while i > 0
            invariant
                i <= self.prompt_info@.len(),
                forall|m: int| i <= m < self.prompt_info@.len() ==> (#[trigger] self.prompt_info@[m]).name@ != name@,
            decreases i,
        {
            if self.prompt_info[i - 1].name == *name {
                return Some(&self.prompt_info[i - 1]);
            }
            i = i - 1;
        }
        None
    }
}

/// Refreshing twice from an unchanged registry gives the same content.
pub proof fn lemma_refresh_deterministic(
    a: CompletionCache,
    b: CompletionCache,
    listing: Seq<Registered>,
)
    requires
        a.built_from(listing),
        b.built_from(listing),
    ensures
        a.same_content(b),
{
    assert(a.prompt_lists() =~= b.prompt_lists());
}

/// A cleared cache is empty, and clearing it again leaves it empty.
pub proof fn lemma_invalidate_idempotent(a: CompletionCache, b: CompletionCache)
    requires
        a.is_empty(),
        b.is_empty(),
    ensures
        a.same_content(b),
{
    assert(a.prompt_lists() =~= b.prompt_lists());
}

} // verus!
