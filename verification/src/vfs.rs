use vstd::prelude::*;

use crate::registry::full_name;
use std::marker::PhantomData;

verus! {

/// Where block data is read from: the built-in core directory and the user's data directory.
/// Resolving them touches the file system and the environment, which the application does.
pub struct VfsPaths;

/// The block named by the path of a `meta.ron` file, `.../<namespace>/blocks/<name>/meta.ron`,
/// given the path's components in order.
pub open spec fn spec_meta_block_id(components: Seq<Seq<char>>) -> Option<(Seq<char>, Seq<char>)> {
    let n = components.len();
    if n >= 4 && components[n - 1] == "meta.ron"@ && components[n - 3] == "blocks"@ {
        Some((components[n - 4], components[n - 2]))
    } else {
        None
    }
}

/// The `(namespace, name)` of the block whose `meta.ron` sits at a path with these
/// components, or `None` when the path is not of the form
/// `.../<namespace>/blocks/<name>/meta.ron`.
pub fn meta_block_id(components: &Vec<String>) -> (r: Option<(String, String)>)
    ensures
        match spec_meta_block_id(components@.map_values(|c: String| c@)) {
            Some((ns, nm)) => (r matches Some((a, b)) && a@ == ns && b@ == nm),
            None => r is None,
        },
{
    let ghost view = components@.map_values(|c: String| c@);
    let n = components.len();
    if n < 4 {
        return None;
    }
    let meta = "meta.ron".to_owned();
    let blocks = "blocks".to_owned();
    if components[n - 1] == meta && components[n - 3] == blocks {
        assert(view[n - 1] == components@[n - 1]@);
        Some((components[n - 4].clone(), components[n - 2].clone()))
    } else {
        assert(view[n - 1] == components@[n - 1]@);
        assert(view[n - 3] == components@[n - 3]@);
        None
    }
}

/// The full block name (`namespace:name`) of the block a property file belongs to, given
/// the file path's components. A file at `.../<namespace>/blocks/<name>/<file>` belongs to
/// `namespace:name`; any other file of at least three components is named by its
/// grandparent and parent directories, `<grandparent>:<parent>`; a shorter path names none.
pub open spec fn spec_property_block_id(components: Seq<Seq<char>>) -> Option<Seq<char>> {
    let n = components.len();
    if n >= 4 && components[n - 3] == "blocks"@ {
        Some(full_name(components[n - 4], components[n - 2]))
    } else if n >= 3 {
        Some(full_name(components[n - 3], components[n - 2]))
    } else {
        None
    }
}

/// The full block name that a property file stands for: for a file at
/// `.../<namespace>/blocks/<name>/<file>`, `namespace:name` (for
/// `data/anantham/blocks/stone/mesh.ron`, `anantham:stone`); for another path of at least
/// three components, its grandparent and parent directories joined by a colon (for
/// `anantham/stone/mesh.ron`, `anantham:stone`); for a shorter path, none.
pub fn extract_block_id(components: &Vec<String>) -> (r: Option<String>)
    ensures
        match spec_property_block_id(components@.map_values(|c: String| c@)) {
            Some(id) => (r matches Some(s) && s@ == id),
            None => r is None,
        },
{
    let ghost view = components@.map_values(|c: String| c@);
    let n = components.len();
    if n < 3 {
        return None;
    }
    assert(view[n - 3] == components@[n - 3]@);
    assert(view[n - 2] == components@[n - 2]@);
    let blocks = "blocks".to_owned();
    let namespace_at: usize = if n >= 4 && components[n - 3] == blocks {
        assert(view[n - 4] == components@[n - 4]@);
        n - 4
    } else {
        n - 3
    };
    let mut id = components[namespace_at].clone();
    id.append(":");
    id.append(components[n - 2].as_str());
    proof {
        reveal_strlit(":");
    }
    Some(id)
}

/// Loads a block property file of one extension.
pub struct BlockPropertyLoader<A> {
    extension: &'static str,
    _marker: PhantomData<A>,
}

impl<A> BlockPropertyLoader<A> {
    /// The extension this loader serves.
    pub closed spec fn spec_extension(&self) -> &'static str {
        self.extension
    }

    pub fn new(extension: &'static str) -> (r: Self)
        ensures
            r.spec_extension() == extension,
    {
        BlockPropertyLoader { extension, _marker: PhantomData }
    }

    /// The file extension this loader serves.
    pub fn extension(&self) -> (r: &'static str)
        ensures
            r == self.spec_extension(),
    {
        self.extension
    }
}

} // verus!
