use vstd::prelude::*;

verus! {

/// The registry of texture slots behind a drawer.
///
/// Every registered texture occupies one slot of the host's texture list and
/// is addressed by a 1-based id: the id of a slot is its index in the list
/// plus one, so that id 0 stays free to mean "no texture".
pub struct TextureRegistry {
    count: usize,
}

impl TextureRegistry {
    /// How many texture slots have been handed out.
    pub closed spec fn spec_len(&self) -> int {
        self.count as int
    }

    pub fn new() -> (r: TextureRegistry)
        ensures
            r.spec_len() == 0,
    {
        TextureRegistry { count: 0 }
    }

    /// Number of registered textures.
    pub fn len(&self) -> (n: usize)
        ensures
            n == self.spec_len(),
    {
        self.count
    }

    /// Claims the next slot and returns its 1-based id, which resolves back
    /// to the newest slot from now on.
    pub fn add_texture(&mut self) -> (id: i32)
        requires
            old(self).spec_len() < i32::MAX,
        ensures
            final(self).spec_len() == old(self).spec_len() + 1,
            id == old(self).spec_len() + 1,
    {
        self.count = self.count + 1;
        self.count as i32
    }

    /// Resolves a texture id to the index of its slot in the host's texture
    /// list: exactly the ids 1 through `len` resolve, each to id minus one.
    pub fn find_res(&self, id: i32) -> (r: Option<usize>)
        ensures
            r == (if 1 <= id && id <= self.spec_len() {
                Some((id - 1) as usize)
            } else {
                None::<usize>
            }),
    {
        if id > 0 && id as usize <= self.count {
            Some((id - 1) as usize)
        } else {
            None
        }
    }
}

} // verus!
