//! The compile-time plugin registry: three independent name→plugin maps,
//! for tags, blocks and filters. A registry is built once, before any
//! parsing, and read-only thereafter; registering a name already present
//! is a construction-time error, never a silent overwrite.

use vstd::prelude::*;
use crate::assign_tag::AssignTag;
use crate::error::{Error, ErrorKind};
use crate::filters::FilterPlugin;
use crate::for_block::ForBlock;
use crate::if_block::IfBlock;
use crate::ifchanged_block::IfChangedBlock;
use crate::interrupt_tags::{BreakTag, ContinueTag};

verus! {

use vstd::string::StringExecFns;

/// A tag plugin: one construct with no body.
#[derive(Debug, Clone, Copy)]
pub enum TagPlugin {
    Assign(AssignTag),
    Break(BreakTag),
    Continue(ContinueTag),
}

/// A block plugin: a paired open/close construct with a nested body.
#[derive(Debug, Clone, Copy)]
pub enum BlockPlugin {
    IfChanged(IfChangedBlock),
    For(ForBlock),
    If(IfBlock),
}

/// The first plugin registered under `name`.
pub open spec fn find_plugin<P>(s: Seq<(String, P)>, name: Seq<char>) -> Option<P>
    decreases s.len(),
{
    if s.len() == 0 {
        None
    } else if s[0].0@ == name {
        Some(s[0].1)
    } else {
        find_plugin(s.drop_first(), name)
    }
}

/// A name→plugin map with registration-time duplicate detection.
#[derive(Debug)]
pub struct Registry<P> {
    pub entries: Vec<(String, P)>,
}

impl<P: Copy> Registry<P> {
    /// An empty registry.
    pub fn new() -> (r: Registry<P>)
        ensures
            r.entries@.len() == 0,
    {
        Registry { entries: Vec::new() }
    }

    /// Register a plugin under a name. A name already present is an error,
    /// and the registry stays as it was.
    pub fn register(&mut self, name: String, plugin: P) -> (r: Result<(), Error>)
        ensures
            (r is Ok) == (find_plugin(old(self).entries@, name@) is None),
            r is Ok ==> final(self).entries@ == old(self).entries@.push((name, plugin)),
            r is Err ==> final(self).entries@ == old(self).entries@ && r->Err_0.kind
                == ErrorKind::Parse,
    {
        if self.contains(&name) {
            Err(Error::parse(String::from_str("a plugin with this name is already registered")))
        } else {
            self.entries.push((name, plugin));
            Ok(())
        }
    }

    /// Whether a plugin is registered under `name`.
    pub fn contains(&self, name: &String) -> (r: bool)
        ensures
            r == (find_plugin(self.entries@, name@) is Some),
    {
        match self.lookup(name) {
            Option::Some(_) => true,
            Option::None => false,
        }
    }

    /// The plugin registered under `name`, if any.
    pub fn lookup(&self, name: &String) -> (r: Option<P>)
        ensures
            r == find_plugin(self.entries@, name@),
    {
        let ghost es = self.entries@;
        proof {
            assert(es.skip(0) =~= es);
        }
        let mut i: usize = 0;
        let n = self.entries.len();
        while i < n
            invariant
                i <= n,
                n == es.len(),
                es == self.entries@,
                find_plugin(es, name@) == find_plugin(es.skip(i as int), name@),
            decreases n - i,
        {
            proof {
                assert(es.skip(i as int)[0] == es[i as int]);
                assert(es.skip(i as int).drop_first() =~= es.skip(i + 1));
            }
            if crate::runtime::str_equal(&self.entries[i].0, name) {
                return Some(self.entries[i].1);
            }
            i = i + 1;
        }
        proof {
            assert(es.skip(n as int) =~= Seq::<(String, P)>::empty());
        }
        None
    }
}

/// The three registries the parser consults.
#[derive(Debug)]
pub struct Language {
    pub tags: Registry<TagPlugin>,
    pub blocks: Registry<BlockPlugin>,
    pub filters: Registry<FilterPlugin>,
}

impl Language {
    /// A language with nothing registered.
    pub fn new() -> (r: Language)
        ensures
            r.tags.entries@.len() == 0,
            r.blocks.entries@.len() == 0,
            r.filters.entries@.len() == 0,
    {
        Language { tags: Registry::new(), blocks: Registry::new(), filters: Registry::new() }
    }
}

impl Default for Language {
    /// A language with nothing registered.
    fn default() -> (r: Language)
        ensures
            r.tags.entries@.len() == 0,
            r.blocks.entries@.len() == 0,
            r.filters.entries@.len() == 0,
    {
        Language::new()
    }
}

} // verus!
