//! Extensions, the tools and prompts they offer, and the registry of the
//! extensions active in a session.
use vstd::prelude::*;

verus! {

/// A tool offered by an extension. `read_only` is the tool's own declaration
/// that calling it changes nothing.
#[derive(Debug)]
pub struct Tool {
    pub name: String,
    pub description: String,
    pub read_only: bool,
}

impl Clone for Tool {
    fn clone(&self) -> (r: Self)
        ensures
            r == *self,
    {
        Tool { name: self.name.clone(), description: self.description.clone(), read_only: self.read_only }
    }
}

/// Some tool of the list has the name and declares itself read-only.
pub open spec fn is_read_only(tools: Seq<Tool>, name: Seq<char>) -> bool {
    exists|i: int| 0 <= i < tools.len() && (#[trigger] tools[i]).name@ == name && tools[i].read_only
}

/// Whether some tool of the list has the name and declares itself read-only.
pub fn read_only_tool(tools: &Vec<Tool>, name: &str) -> (r: bool)
    ensures
        r == is_read_only(tools@, name@),
{
    let wanted = name.to_owned();
    let mut i: usize = 0;
    while i < tools.len()
        invariant
            i <= tools@.len(),
            wanted@ == name@,
            forall|k: int| 0 <= k < i ==> !((#[trigger] tools@[k]).name@ == name@ && tools@[k].read_only),
        decreases tools@.len() - i,
    {
        if tools[i].read_only && tools[i].name == wanted {
            return true;
        }
        i = i + 1;
    }
    false
}

/// The timeout, in seconds, of an extension whose configuration names none.
pub const DEFAULT_EXTENSION_TIMEOUT: u64 = 300;

/// Environment variables handed to an extension's process, in the order they
/// were set; a later setting of a name overrides an earlier one.
#[derive(Debug)]
pub struct Envs {
    pairs: Vec<(String, String)>,
}

pub open spec fn env_lookup(pairs: Seq<(String, String)>, key: Seq<char>) -> Option<Seq<char>>
    decreases pairs.len(),
{
    if pairs.len() == 0 {
        None
    } else if pairs.last().0@ == key {
        Some(pairs.last().1@)
    } else {
        env_lookup(pairs.drop_last(), key)
    }
}

impl Envs {
    /// The value of each variable.
    pub closed spec fn get(&self, key: Seq<char>) -> Option<Seq<char>> {
        env_lookup(self.pairs@, key)
    }

    pub fn new() -> (e: Envs)
        ensures
            forall|k: Seq<char>| e.get(k) == None::<Seq<char>>,
    {
        Envs { pairs: Vec::new() }
    }

    /// Sets a variable.
    pub fn insert(&mut self, key: String, value: String)
        ensures
            final(self).get(key@) == Some(value@),
            forall|k: Seq<char>| k != key@ ==> final(self).get(k) == old(self).get(k),
    {
        self.pairs.push((key, value));
        proof {
            assert(self.pairs@.drop_last() =~= old(self).pairs@);
        }
    }

    /// The value of a variable, if it is set.
    pub fn lookup(&self, key: &str) -> (r: Option<String>)
        ensures
            r matches Some(v) ==> self.get(key@) == Some(v@),
            r is None ==> self.get(key@) is None,
    {
        let wanted = key.to_owned();
        let mut i: usize = self.pairs.len();
        proof {
            assert(self.pairs@.subrange(0, i as int) =~= self.pairs@);
        }
        while i > 0
            invariant
                i <= self.pairs@.len(),
                wanted@ == key@,
                env_lookup(self.pairs@, key@) == env_lookup(self.pairs@.subrange(0, i as int), key@),
            decreases i,
        {
            let ghost sub = self.pairs@.subrange(0, i as int);
            if self.pairs[i - 1].0 == wanted {
                return Some(self.pairs[i - 1].1.clone());
            }
            proof {
                assert(sub.drop_last() =~= self.pairs@.subrange(0, i - 1));
            }
            i = i - 1;
        }
        None
    }

    /// The settings in the order they were made, to hand to a process.
    pub fn pairs(&self) -> (r: &Vec<(String, String)>)
        ensures
            forall|k: Seq<char>| env_lookup(r@, k) == self.get(k),
    {
        &self.pairs
    }
}

impl Clone for Envs {
    fn clone(&self) -> (r: Self)
        ensures
            forall|k: Seq<char>| r.get(k) == self.get(k),
    {
        let mut pairs: Vec<(String, String)> = Vec::new();
        let mut i: usize = 0;
        while i < self.pairs.len()
            invariant
                i <= self.pairs@.len(),
                pairs@.len() == i,
                forall|k: int| 0 <= k < i ==> (#[trigger] pairs@[k]).0@ == self.pairs@[k].0@ && pairs@[k].1@ == self.pairs@[k].1@,
            decreases self.pairs@.len() - i,
        {
            pairs.push((self.pairs[i].0.clone(), self.pairs[i].1.clone()));
            i = i + 1;
        }
        let r = Envs { pairs };
        proof {
            assert forall|k: Seq<char>| r.get(k) == self.get(k) by {
                lemma_env_lookup_same(r.pairs@, self.pairs@, k);
            }
        }
        r
    }
}

proof fn lemma_env_lookup_same(a: Seq<(String, String)>, b: Seq<(String, String)>, key: Seq<char>)
    requires
        a.len() == b.len(),
        forall|k: int| 0 <= k < a.len() ==> (#[trigger] a[k]).0@ == b[k].0@ && a[k].1@ == b[k].1@,
    ensures
        env_lookup(a, key) == env_lookup(b, key),
    decreases a.len(),
{
    if a.len() > 0 {
        lemma_env_lookup_same(a.drop_last(), b.drop_last(), key);
    }
}

/// How to reach an extension, and what it is called.
#[derive(Debug)]
pub enum ExtensionConfig {
    /// Built into the runtime, known by name.
    Builtin { name: String, timeout: Option<u64> },
    /// A local process, started with a command, arguments and environment.
    Stdio { name: String, cmd: String, args: Vec<String>, envs: Envs, timeout: Option<u64> },
    /// A remote event stream at a URI.
    Sse { name: String, uri: String, envs: Envs, timeout: Option<u64> },
}

impl ExtensionConfig {
    pub open spec fn name_spec(&self) -> Seq<char> {
        match self {
            ExtensionConfig::Builtin { name, .. } => name@,
            ExtensionConfig::Stdio { name, .. } => name@,
            ExtensionConfig::Sse { name, .. } => name@,
        }
    }

    pub open spec fn timeout_spec(&self) -> Option<u64> {
        match self {
            ExtensionConfig::Builtin { timeout, .. } => *timeout,
            ExtensionConfig::Stdio { timeout, .. } => *timeout,
            ExtensionConfig::Sse { timeout, .. } => *timeout,
        }
    }

    /// The name the extension is known by.
    pub fn name(&self) -> (r: &String)
        ensures
            r@ == self.name_spec(),
    {
        match self {
            ExtensionConfig::Builtin { name, .. } => name,
            ExtensionConfig::Stdio { name, .. } => name,
            ExtensionConfig::Sse { name, .. } => name,
        }
    }

    /// The timeout in seconds that calls into the extension are bounded by.
    pub fn effective_timeout(&self) -> (r: u64)
        ensures
            r == match self.timeout_spec() {
                Some(t) => t,
                None => DEFAULT_EXTENSION_TIMEOUT,
            },
    {
        let t = match self {
            ExtensionConfig::Builtin { timeout, .. } => *timeout,
            ExtensionConfig::Stdio { timeout, .. } => *timeout,
            ExtensionConfig::Sse { timeout, .. } => *timeout,
        };
        match t {
            Some(t) => t,
            None => DEFAULT_EXTENSION_TIMEOUT,
        }
    }
}

/// A persisted extension configuration and whether it is enabled.
#[derive(Debug)]
pub struct ExtensionEntry {
    pub enabled: bool,
    pub config: ExtensionConfig,
}

/// Why an extension could not be added.
#[derive(Debug)]
pub enum ExtensionError {
    /// An extension of that name is already registered.
    NameCollision(String),
    /// The URI of a remote extension does not start with `http://` or `https://`.
    InvalidUri(String),
    /// The process could not be started, the endpoint not reached, or the handshake timed out.
    Transport(String),
}

/// `p` is a prefix of `s`.
pub open spec fn has_prefix(s: Seq<char>, p: Seq<char>) -> bool {
    p.len() <= s.len() && s.subrange(0, p.len() as int) == p
}

pub fn starts_with(s: &str, p: &str) -> (r: bool)
    ensures
        r == has_prefix(s@, p@),
{
    let n = s.unicode_len();
    let m = p.unicode_len();
    if m > n {
        return false;
    }
    let mut i: usize = 0;
    while i < m
        invariant
            m <= n,
            n == s@.len(),
            m == p@.len(),
            i <= m,
            forall|k: int| 0 <= k < i ==> s@[k] == p@[k],
        decreases m - i,
    {
        if s.get_char(i) != p.get_char(i) {
            proof {
                assert(s@.subrange(0, m as int)[i as int] != p@[i as int]);
            }
            return false;
        }
        i = i + 1;
    }
    proof {
        assert(s@.subrange(0, m as int) =~= p@);
    }
    true
}

/// A remote extension's URI must start with `http://` or `https://`.
pub open spec fn valid_uri(uri: Seq<char>) -> bool {
    has_prefix(uri, "http://"@) || has_prefix(uri, "https://"@)
}

pub fn is_valid_uri(uri: &str) -> (r: bool)
    ensures
        r == valid_uri(uri@),
{
    starts_with(uri, "http://") || starts_with(uri, "https://")
}

/// An argument that a prompt template takes.
#[derive(Debug)]
pub struct PromptArgument {
    pub name: String,
    pub description: Option<String>,
    pub required: Option<bool>,
}

impl Clone for PromptArgument {
    fn clone(&self) -> (r: Self)
        ensures
            r == *self,
    {
        PromptArgument {
            name: self.name.clone(),
            description: match &self.description {
                Some(d) => Some(d.clone()),
                None => None,
            },
            required: self.required,
        }
    }
}

/// A prompt template offered by an extension.
#[derive(Debug)]
pub struct Prompt {
    pub name: String,
    pub description: Option<String>,
    pub arguments: Vec<PromptArgument>,
}

/// Two prompts with the same name, description and arguments.
pub open spec fn same_prompt(a: Prompt, b: Prompt) -> bool {
    a.name == b.name && a.description == b.description && a.arguments@ == b.arguments@
}

impl Clone for Prompt {
    fn clone(&self) -> (r: Self)
        ensures
            same_prompt(r, *self),
    {
        let arguments = self.arguments.clone();
        proof {
            assert(arguments@ =~= self.arguments@);
        }
        Prompt {
            name: self.name.clone(),
            description: match &self.description {
                Some(d) => Some(d.clone()),
                None => None,
            },
            arguments,
        }
    }
}

/// An extension in the registry, with the tools and prompts it advertised.
#[derive(Debug)]
pub struct Registered {
    pub config: ExtensionConfig,
    pub tools: Vec<Tool>,
    pub prompts: Vec<Prompt>,
}

/// The extensions active in a session; no two share a name.
#[derive(Debug)]
pub struct ExtensionRegistry {
    extensions: Vec<Registered>,
}

/// Some extension of the sequence has the name.
pub open spec fn name_taken(exts: Seq<Registered>, name: Seq<char>) -> bool {
    exists|i: int| 0 <= i < exts.len() && (#[trigger] exts[i]).config.name_spec() == name
}

/// A remote extension whose URI is neither http nor https.
pub open spec fn bad_uri(config: ExtensionConfig) -> bool {
    match config {
        ExtensionConfig::Sse { uri, .. } => !valid_uri(uri@),
        _ => false,
    }
}

pub open spec fn is_collision<T>(r: Result<T, ExtensionError>) -> bool {
    r matches Err(ExtensionError::NameCollision(_))
}

pub open spec fn is_invalid_uri<T>(r: Result<T, ExtensionError>) -> bool {
    r matches Err(ExtensionError::InvalidUri(_))
}

/// The result is a transport error holding `e`.
pub open spec fn is_transport<T>(r: Result<T, ExtensionError>, e: Seq<char>) -> bool {
    r matches Err(ExtensionError::Transport(m)) && m@ == e
}

impl ExtensionRegistry {
    pub closed spec fn extensions(&self) -> Seq<Registered> {
        self.extensions@
    }

    /// No two extensions share a name.
    pub open spec fn wf(&self) -> bool {
        forall|i: int, j: int|
            0 <= i < j < self.extensions().len() ==> (#[trigger] self.extensions()[i]).config.name_spec()
                != (#[trigger] self.extensions()[j]).config.name_spec()
    }

    pub fn new() -> (r: ExtensionRegistry)
        ensures
            r.wf(),
            r.extensions().len() == 0,
    {
        ExtensionRegistry { extensions: Vec::new() }
    }

    /// Whether an extension of this name is registered.
    pub fn contains(&self, name: &String) -> (r: bool)
        ensures
            r == name_taken(self.extensions(), name@),
    {
        let mut i: usize = 0;
        while i < self.extensions.len()
            invariant
                i <= self.extensions@.len(),
                forall|k: int| 0 <= k < i ==> (#[trigger] self.extensions@[k]).config.name_spec() != name@,
            decreases self.extensions@.len() - i,
        {
            if *self.extensions[i].config.name() == *name {
                return true;
            }
            i = i + 1;
        }
        false
    }

    /// Whether `config` may be started: its name is free and, for a remote
    /// extension, its URI is an http or https one. Nothing is to be started
    /// on an error.
    pub fn check_add(&self, config: &ExtensionConfig) -> (r: Result<(), ExtensionError>)
        ensures
            name_taken(self.extensions(), config.name_spec()) <==> is_collision(r),
            r matches Err(ExtensionError::NameCollision(n)) ==> n@ == config.name_spec(),
            !name_taken(self.extensions(), config.name_spec()) ==> {
                &&& bad_uri(*config) <==> is_invalid_uri(r)
                &&& r is Ok <==> !bad_uri(*config)
            },
    {
        let name = config.name();
        if self.contains(name) {
            return Err(ExtensionError::NameCollision(name.clone()));
        }
        match config {
            ExtensionConfig::Sse { uri, .. } => {
                if !is_valid_uri(uri.as_str()) {
                    return Err(ExtensionError::InvalidUri(uri.clone()));
                }
            },
            _ => {},
        }
        Ok(())
    }

    /// Registers an extension once it was started, with what it advertised
    /// in its handshake, or reports why it could not be added.
    pub fn add(
        &mut self,
        config: ExtensionConfig,
        handshake: Result<(Vec<Tool>, Vec<Prompt>), String>,
    ) -> (r: Result<(), ExtensionError>)
        requires
            old(self).wf(),
        ensures
            final(self).wf(),
            name_taken(old(self).extensions(), config.name_spec()) <==> is_collision(r),
            !name_taken(old(self).extensions(), config.name_spec()) ==> {
                &&& bad_uri(config) <==> is_invalid_uri(r)
                &&& !bad_uri(config) ==> {
                    &&& handshake is Ok <==> r is Ok
                    &&& handshake matches Err(e) ==> is_transport(r, e@)
                }
            },
            r is Ok ==> (handshake matches Ok(h) && final(self).extensions() == old(self).extensions().push(
                (Registered { config, tools: h.0, prompts: h.1 }),
            )),
            r is Err ==> final(self).extensions() == old(self).extensions(),
    {
        match self.check_add(&config) {
            Err(e) => Err(e),
            Ok(()) => match handshake {
                Err(e) => Err(ExtensionError::Transport(e)),
                Ok(h) => {
                    let (tools, prompts) = h;
                    self.extensions.push(Registered { config, tools, prompts });
                    Ok(())
                },
            },
        }
    }

    /// Removes the extension of this name, if one is registered; the caller
    /// stops its process or connection.
    pub fn remove(&mut self, name: &String) -> (r: Option<Registered>)
        requires
            old(self).wf(),
        ensures
            final(self).wf(),
            r is Some <==> name_taken(old(self).extensions(), name@),
            r matches Some(e) ==> e.config.name_spec() == name@,
            r is None ==> final(self).extensions() == old(self).extensions(),
            r matches Some(e) ==> exists|i: int|
                0 <= i < old(self).extensions().len() && (#[trigger] old(self).extensions()[i]) == e
                    && final(self).extensions() == old(self).extensions().remove(i),
            !name_taken(final(self).extensions(), name@),
            forall|n: Seq<char>| n != name@ ==> (name_taken(final(self).extensions(), n) <==> name_taken(old(self).extensions(), n)),
    {
        let mut i: usize = 0;
        while i < self.extensions.len()
            invariant
                i <= self.extensions@.len(),
                self.extensions@ == old(self).extensions@,
                self.wf(),
                forall|k: int| 0 <= k < i ==> (#[trigger] self.extensions@[k]).config.name_spec() != name@,
            decreases self.extensions@.len() - i,
        {
            if *self.extensions[i].config.name() == *name {
                let ghost before = self.extensions@;
                let e = self.extensions.remove(i);
                proof {
                    assert forall|k: int| 0 <= k < self.extensions@.len() implies (#[trigger] self.extensions@[k]) == if k < i {
                        before[k]
                    } else {
                        before[k + 1]
                    } by {}
                    assert forall|k: int| 0 <= k < self.extensions@.len() implies (#[trigger] self.extensions@[k]).config.name_spec() != name@ by {
                        if k >= i {
                            assert(before[i as int].config.name_spec() != before[k + 1].config.name_spec());
                        }
                    }
                    assert forall|a: int, b: int| 0 <= a < b < self.extensions@.len() implies (#[trigger] self.extensions@[a]).config.name_spec()
                        != (#[trigger] self.extensions@[b]).config.name_spec() by {
                        let a0 = if a < i { a } else { a + 1 };
                        let b0 = if b < i { b } else { b + 1 };
                        assert(before[a0].config.name_spec() != before[b0].config.name_spec());
                    }
                    assert forall|n: Seq<char>| n != name@ implies (name_taken(self.extensions@, n) <==> name_taken(before, n)) by {
                        if name_taken(before, n) {
                            let k = choose|k: int| 0 <= k < before.len() && (#[trigger] before[k]).config.name_spec() == n;
                            if k < i {
                                assert(self.extensions@[k] == before[k]);
                            } else {
                                assert(k != i);
                                assert(self.extensions@[k - 1] == before[k]);
                            }
                        }
                    }
                }
                return Some(e);
            }
            i = i + 1;
        }
        None
    }

    /// The registered extensions, in the order they were added.
    pub fn registered(&self) -> (r: &Vec<Registered>)
        ensures
            r@ == self.extensions(),
    {
        &self.extensions
    }

    /// The tools of every extension, in the order of the extensions.
    pub fn list_tools(&self) -> (r: Vec<Tool>)
        ensures
            r@ == all_tools(self.extensions()),
    {
        let mut out: Vec<Tool> = Vec::new();
        let mut i: usize = 0;
        while i < self.extensions.len()
            invariant
                i <= self.extensions@.len(),
                out@ == all_tools(self.extensions@.subrange(0, i as int)),
            decreases self.extensions@.len() - i,
        {
            let tools = &self.extensions[i].tools;
            let ghost base = out@;
            let mut j: usize = 0;
            while j < tools.len()
                invariant
                    j <= tools@.len(),
                    out@ == base + tools@.subrange(0, j as int),
                decreases tools@.len() - j,
            {
                out.push(tools[j].clone());
                proof {
                    assert(out@ =~= base + tools@.subrange(0, j + 1));
                }
                j = j + 1;
            }
            proof {
                assert(tools@.subrange(0, tools@.len() as int) =~= tools@);
                assert(self.extensions@.subrange(0, i + 1).drop_last() =~= self.extensions@.subrange(0, i as int));
            }
            i = i + 1;
        }
        proof {
            assert(self.extensions@.subrange(0, self.extensions@.len() as int) =~= self.extensions@);
        }
        out
    }

    /// The name of the first extension that offers a tool of this name.
    pub fn tool_owner(&self, tool: &String) -> (r: Option<String>)
        ensures
            r is None <==> forall|i: int| 0 <= i < self.extensions().len() ==> !offers_tool(#[trigger] self.extensions()[i], tool@),
            r matches Some(e) ==> exists|i: int|
                0 <= i < self.extensions().len() && offers_tool(#[trigger] self.extensions()[i], tool@)
                    && self.extensions()[i].config.name_spec() == e@
                    && forall|k: int| 0 <= k < i ==> !offers_tool(#[trigger] self.extensions()[k], tool@),
    {
        let mut i: usize = 0;
        while i < self.extensions.len()
            invariant
                i <= self.extensions@.len(),
                forall|k: int| 0 <= k < i ==> !offers_tool(#[trigger] self.extensions@[k], tool@),
            decreases self.extensions@.len() - i,
        {
            let tools = &self.extensions[i].tools;
            let mut j: usize = 0;
            while j < tools.len()
                invariant
                    j <= tools@.len(),
                    i < self.extensions@.len(),
                    tools@ == self.extensions@[i as int].tools@,
                    forall|k: int| 0 <= k < j ==> (#[trigger] tools@[k]).name@ != tool@,
                    forall|k: int| 0 <= k < i ==> !offers_tool(#[trigger] self.extensions@[k], tool@),
                decreases tools@.len() - j,
            {
                if tools[j].name == *tool {
                    proof {
                        assert(offers_tool(self.extensions@[i as int], tool@));
                        assert(offers_tool(self.extensions()[i as int], tool@));
                        assert(forall|k: int| 0 <= k < i ==> !offers_tool(#[trigger] self.extensions()[k], tool@));
                    }
                    return Some(self.extensions[i].config.name().clone());
                }
                j = j + 1;
            }
            i = i + 1;
        }
        None
    }

    /// The prompts of every extension, by extension name, in the order of the extensions.
    pub fn list_prompts(&self) -> (r: Vec<(String, Vec<Prompt>)>)
        ensures
            r@.len() == self.extensions().len(),
            forall|i: int|
                0 <= i < r@.len() ==> (#[trigger] r@[i]).0@ == self.extensions()[i].config.name_spec()
                    && same_prompts(r@[i].1@, self.extensions()[i].prompts@),
    {
        let mut out: Vec<(String, Vec<Prompt>)> = Vec::new();
        let mut i: usize = 0;
        while i < self.extensions.len()
            invariant
                i <= self.extensions@.len(),
                out@.len() == i,
                forall|k: int|
                    0 <= k < i ==> (#[trigger] out@[k]).0@ == self.extensions@[k].config.name_spec()
                        && same_prompts(out@[k].1@, self.extensions@[k].prompts@),
            decreases self.extensions@.len() - i,
        {
            let prompts = self.extensions[i].prompts.clone();
            out.push((self.extensions[i].config.name().clone(), prompts));
            i = i + 1;
        }
        out
    }
}

/// The extension offers a tool of this name.
pub open spec fn offers_tool(e: Registered, tool: Seq<char>) -> bool {
    exists|j: int| 0 <= j < e.tools@.len() && (#[trigger] e.tools@[j]).name@ == tool
}

/// The tools of the extensions, one extension after the other.
pub open spec fn all_tools(exts: Seq<Registered>) -> Seq<Tool>
    decreases exts.len(),
{
    if exts.len() == 0 {
        Seq::empty()
    } else {
        all_tools(exts.drop_last()) + exts.last().tools@
    }
}

/// The two sequences hold the same prompts, in the same order.
pub open spec fn same_prompts(a: Seq<Prompt>, b: Seq<Prompt>) -> bool {
    a.len() == b.len() && forall|k: int| 0 <= k < a.len() ==> same_prompt(#[trigger] a[k], b[k])
}

} // verus!
