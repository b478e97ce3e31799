//! The texture atlas: which texture each wall tile is drawn with.

use std::collections::HashMap;
use std::rc::Rc;
use vstd::prelude::*;
use crate::texture::Texture;

verus! {

/// Maps tile identifiers to shared textures, with one default texture for
/// every tile that has none of its own.
pub struct TextureAtlas {
    default: Rc<Texture>,
    map: HashMap<u32, Rc<Texture>>,
}

/// Two characters with the same code are the same character.
proof fn lemma_code_injective(c: char, d: char)
    ensures
        c as u32 == d as u32 <==> c == d,
{
}

impl TextureAtlas {
    /// The texture of every tile without an entry.
    pub closed spec fn fallback(&self) -> Texture {
        *self.default
    }

    /// The tiles that have a texture of their own.
    pub closed spec fn entries(&self) -> Map<char, Texture> {
        Map::new(|c: char| self.map@.contains_key(c as u32), |c: char| *self.map@[c as u32])
    }

    /// The texture that `tile` is drawn with.
    pub open spec fn lookup(&self, tile: char) -> Texture {
        if self.entries().contains_key(tile) {
            self.entries()[tile]
        } else {
            self.fallback()
        }
    }

    /// Every texture of the atlas can be sampled.
    pub open spec fn wf(&self) -> bool {
        &&& self.fallback().wf()
        &&& forall|c: char| #[trigger] self.entries().contains_key(c) ==> self.entries()[c].wf()
    }

    /// An atlas in which every tile has the texture `default`.
    pub fn new(default: Rc<Texture>) -> (atlas: Self)
        ensures
            atlas.fallback() == *default,
            atlas.entries() == Map::<char, Texture>::empty(),
    {
        let atlas = TextureAtlas { default, map: HashMap::new() };
        assert(atlas.entries() =~= Map::<char, Texture>::empty());
        atlas
    }

    /// Gives `tile` the texture `tex`, in place of the one it had.
    pub fn insert(&mut self, tile: char, tex: Rc<Texture>)
        ensures
            final(self).fallback() == old(self).fallback(),
            final(self).entries() == old(self).entries().insert(tile, *tex),
    {
        self.map.insert(tile as u32, tex);
        proof {
            let before = old(self).entries();
            let after = self.entries();
            assert forall|c: char| after.contains_key(c) <==> before.insert(tile, *tex).contains_key(
                c,
            ) by {
                lemma_code_injective(c, tile);
            }
            assert forall|c: char| after.contains_key(c) implies after[c] == before.insert(
                tile,
                *tex,
            )[c] by {
                lemma_code_injective(c, tile);
            }
            assert(after =~= before.insert(tile, *tex));
        }
    }

    /// The texture of `tile`: its own, or the default.
    pub fn get(&self, tile: char) -> (tex: &Texture)
        ensures
            *tex == self.lookup(tile),
    {
        let key: u32 = tile as u32;
        match self.map.get(&key) {
            Some(t) => &**t,
            None => &*self.default,
        }
    }
}

/// A texture is found again under the tile it was inserted for, and every
/// other tile keeps the texture it had.
pub proof fn lemma_insert_lookup(before: TextureAtlas, after: TextureAtlas, tile: char, tex: Texture)
    requires
        after.fallback() == before.fallback(),
        after.entries() == before.entries().insert(tile, tex),
    ensures
        after.lookup(tile) == tex,
        forall|c: char| c != tile ==> after.lookup(c) == before.lookup(c),
{
}

} // verus!
