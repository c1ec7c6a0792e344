//! The entry points of the loader: one per kind of record that can be the
//! root of a load, chosen by the extension of the file.

use crate::kind::AssetKind;
use crate::resolver::{Action, ActionView, Resolver, ResolverView};
use vstd::prelude::*;

verus! {

/// The kind of record that a file with the given extension holds, for the
/// extensions that have a loader.
pub open spec fn kind_for(extension: Seq<char>) -> Option<AssetKind> {
    if extension == "enemy"@ {
        Some(AssetKind::Enemy)
    } else if extension == "item"@ {
        Some(AssetKind::Item)
    } else if extension == "bullet"@ {
        Some(AssetKind::Bullet)
    } else if extension == "ai"@ {
        Some(AssetKind::Ai)
    } else {
        None
    }
}

/// The kind of record that a file with the given extension holds.
pub fn kind_of_extension(extension: &str) -> (kind: Option<AssetKind>)
    ensures
        kind == kind_for(extension@),
{
    let e = String::from_str(extension);
    if e == String::from_str("enemy") {
        Some(AssetKind::Enemy)
    } else if e == String::from_str("item") {
        Some(AssetKind::Item)
    } else if e == String::from_str("bullet") {
        Some(AssetKind::Bullet)
    } else if e == String::from_str("ai") {
        Some(AssetKind::Ai)
    } else {
        None
    }
}

/// The loader of enemy records.
#[derive(Clone, Copy, Debug, Default)]
pub struct EnemyOptionsLoader {}

/// The loader of item records.
#[derive(Clone, Copy, Debug, Default)]
pub struct ItemLoader {}

/// The loader of bullet records.
#[derive(Clone, Copy, Debug, Default)]
pub struct BulletOptionsLoader {}

/// The loader of behaviour records.
#[derive(Clone, Copy, Debug, Default)]
pub struct AiLoader {}

impl EnemyOptionsLoader {
    /// Begins the load of the enemy record at `path` as a root.
    pub fn load(&self, path: String) -> (r: (Resolver, Action))
        ensures
            r.0@ == ResolverView::initial(AssetKind::Enemy, path@),
            r.1@ == (ActionView::Read { path: path@ }),
            r.0@.wf(),
    {
        Resolver::start(AssetKind::Enemy, path)
    }

    /// The extensions of the files that this loader takes.
    pub fn extensions(&self) -> (e: Vec<&'static str>)
        ensures
            e@.len() == 1,
            kind_for(e@[0]@) == Some(AssetKind::Enemy),
    {
        let mut e: Vec<&'static str> = Vec::new();
        e.push("enemy");
        e
    }
}

impl ItemLoader {
    /// Begins the load of the item record at `path` as a root.
    pub fn load(&self, path: String) -> (r: (Resolver, Action))
        ensures
            r.0@ == ResolverView::initial(AssetKind::Item, path@),
            r.1@ == (ActionView::Read { path: path@ }),
            r.0@.wf(),
    {
        Resolver::start(AssetKind::Item, path)
    }

    /// The extensions of the files that this loader takes.
    pub fn extensions(&self) -> (e: Vec<&'static str>)
        ensures
            e@.len() == 1,
            kind_for(e@[0]@) == Some(AssetKind::Item),
    {
        proof {
            lemma_extensions_differ();
        }
        let mut e: Vec<&'static str> = Vec::new();
        e.push("item");
        e
    }
}

impl BulletOptionsLoader {
    /// Begins the load of the bullet record at `path` as a root.
    pub fn load(&self, path: String) -> (r: (Resolver, Action))
        ensures
            r.0@ == ResolverView::initial(AssetKind::Bullet, path@),
            r.1@ == (ActionView::Read { path: path@ }),
            r.0@.wf(),
    {
        Resolver::start(AssetKind::Bullet, path)
    }

    /// The extensions of the files that this loader takes.
    pub fn extensions(&self) -> (e: Vec<&'static str>)
        ensures
            e@.len() == 1,
            kind_for(e@[0]@) == Some(AssetKind::Bullet),
    {
        proof {
            lemma_extensions_differ();
        }
        let mut e: Vec<&'static str> = Vec::new();
        e.push("bullet");
        e
    }
}

impl AiLoader {
    /// Begins the load of the behaviour record at `path` as a root.
    pub fn load(&self, path: String) -> (r: (Resolver, Action))
        ensures
            r.0@ == ResolverView::initial(AssetKind::Ai, path@),
            r.1@ == (ActionView::Read { path: path@ }),
            r.0@.wf(),
    {
        Resolver::start(AssetKind::Ai, path)
    }

    /// The extensions of the files that this loader takes.
    pub fn extensions(&self) -> (e: Vec<&'static str>)
        ensures
            e@.len() == 1,
            kind_for(e@[0]@) == Some(AssetKind::Ai),
    {
        proof {
            lemma_extensions_differ();
        }
        let mut e: Vec<&'static str> = Vec::new();
        e.push("ai");
        e
    }
}

/// The extensions of the loaders are four different words.
pub proof fn lemma_extensions_differ()
    ensures
        "enemy"@ != "item"@,
        "enemy"@ != "bullet"@,
        "enemy"@ != "ai"@,
        "item"@ != "bullet"@,
        "item"@ != "ai"@,
        "bullet"@ != "ai"@,
{
    reveal_strlit("enemy");
    reveal_strlit("item");
    reveal_strlit("bullet");
    reveal_strlit("ai");
    assert("enemy"@.len() == 5);
    assert("item"@.len() == 4);
    assert("bullet"@.len() == 6);
    assert("ai"@.len() == 2);
}

} // verus!
