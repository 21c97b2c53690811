//! Block kinds and the registry that describes them.
//!
//! A block is a small integer id resolved against a fixed table of
//! [`BlockConfig`] entries.  Id 0 is reserved for air, which is both
//! invisible and transparent.  The table is built once at startup by
//! [`BlockRegistry::new`] and never mutated afterwards.

use vstd::prelude::*;
use vstd::string::StrSliceExecFns;

verus! {

/// Number of block kinds in the fixed table.
pub const BLOCK_KIND_COUNT: usize = 18;

/// A texture tile coordinate: (column, row) in the atlas grid.
pub type BlockTexturePosition = (usize, usize);

/// Name of the block kind with the given id, as the table defines it.
pub open spec fn kind_name(id: int) -> Seq<char> {
    if id == 0 { "air"@ }
    else if id == 1 { "brick_stone"@ }
    else if id == 2 { "rails_straight_wood"@ }
    else if id == 3 { "stone_diamond"@ }
    else if id == 4 { "furnace"@ }
    else if id == 5 { "stone_gravel"@ }
    else if id == 6 { "dirt_grass"@ }
    else if id == 7 { "wood_red"@ }
    else if id == 8 { "rails_curve"@ }
    else if id == 9 { "stone_coal_alt"@ }
    else if id == 10 { "mushroom_tan"@ }
    else if id == 11 { "dirt_gravel"@ }
    else if id == 12 { "dirt"@ }
    else if id == 13 { "wood"@ }
    else if id == 14 { "rails_curve_wood"@ }
    else if id == 15 { "stone_coal"@ }
    else if id == 16 { "mushroom_red"@ }
    else { "grass_large"@ }
}

/// Whether the block kind with the given id can be seen through.
pub open spec fn kind_transparent(id: int) -> bool {
    id == 0 || id == 2 || id == 8 || id == 10 || id == 14 || id == 16 || id == 17
}

/// Whether the block kind with the given id contributes no geometry at all.
/// Only air is invisible.
pub open spec fn kind_invisible(id: int) -> bool {
    id == 0
}

/// Texture tile used by the block kind `id` on face `side`
/// (sides are indexed as in the chunk's side-direction table).
pub open spec fn kind_texture(id: int, side: int) -> BlockTexturePosition {
    if id == 0 { (0usize, 0usize) }
    else if id == 1 { (0usize, 0usize) }
    else if id == 2 { (1usize, 0usize) }
    else if id == 3 { (2usize, 0usize) }
    else if id == 4 { if side == 4 || side == 5 { (2usize, 5usize) } else { (3usize, 0usize) } }
    else if id == 5 { (4usize, 0usize) }
    else if id == 6 {
        if side == 4 { (4usize, 6usize) }
        else if side == 5 { (5usize, 1usize) }
        else { (5usize, 0usize) }
    }
    else if id == 7 { (0usize, 1usize) }
    else if id == 8 { (1usize, 1usize) }
    else if id == 9 { (2usize, 1usize) }
    else if id == 10 { (3usize, 1usize) }
    else if id == 11 { (4usize, 1usize) }
    else if id == 12 { (5usize, 1usize) }
    else if id == 13 { (0usize, 2usize) }
    else if id == 14 { (1usize, 2usize) }
    else if id == 15 { (2usize, 2usize) }
    else if id == 16 { (3usize, 2usize) }
    else { (4usize, 2usize) }
}

/// Configuration of one block kind: its name, whether it is completely
/// invisible, whether it can be seen through, and the texture tile used on
/// each of its six faces (in the order of the chunk's side directions).
pub struct BlockConfig {
    pub name: &'static str,
    pub is_invisible: bool,
    pub is_transparent: bool,
    pub textures: [BlockTexturePosition; 6],
}

impl BlockConfig {
    /// A visible block kind with the given transparency and face textures.
    pub fn new(name: &'static str, is_transparent: bool, textures: [BlockTexturePosition; 6]) -> (c: BlockConfig)
        ensures
            c.name == name,
            !c.is_invisible,
            c.is_transparent == is_transparent,
            c.textures == textures,
    {
        BlockConfig { name, is_invisible: false, is_transparent, textures }
    }

    /// A block kind that draws nothing at all; it is also transparent.
    pub fn invisible(name: &'static str) -> (c: BlockConfig)
        ensures
            c.name == name,
            c.is_invisible,
            c.is_transparent,
            forall|i: int| 0 <= i < 6 ==> c.textures@[i] == (0usize, 0usize),
    {
        BlockConfig {
            name,
            is_invisible: true,
            is_transparent: true,
            textures: BlockConfig::texture_all((0, 0)),
        }
    }

    /// The same texture tile on all six faces.
    pub fn texture_all(position: BlockTexturePosition) -> (r: [BlockTexturePosition; 6])
        ensures
            forall|i: int| 0 <= i < 6 ==> r@[i] == position,
    {
        [position, position, position, position, position, position]
    }

    /// One tile for the four lateral faces, one for the top, one for the bottom.
    pub fn texture_sides(top: BlockTexturePosition, side: BlockTexturePosition, bottom: BlockTexturePosition) -> (r: [BlockTexturePosition; 6])
        ensures
            r@[0] == side,
            r@[1] == side,
            r@[2] == side,
            r@[3] == side,
            r@[4] == top,
            r@[5] == bottom,
    {
        [side, side, side, side, top, bottom]
    }
}

/// The fixed, immutable table of block kinds, indexed by block id.
/// Built once at startup; read-only afterwards.
pub struct BlockRegistry {
    configs: Vec<BlockConfig>,
}

impl View for BlockRegistry {
    type V = Seq<BlockConfig>;

    closed spec fn view(&self) -> Seq<BlockConfig> {
        self.configs@
    }
}

impl BlockRegistry {
    /// The registry describes exactly the fixed block kind table.
    pub open spec fn wf(&self) -> bool {
        &&& self@.len() == BLOCK_KIND_COUNT
        &&& forall|i: int| 0 <= i < BLOCK_KIND_COUNT ==> {
            &&& (#[trigger] self@[i]).name@ == kind_name(i)
            &&& self@[i].is_transparent == kind_transparent(i)
            &&& self@[i].is_invisible == kind_invisible(i)
            &&& forall|s: int| 0 <= s < 6 ==> self@[i].textures@[s] == kind_texture(i, s)
        }
    }

    /// Builds the fixed table.  Air sits at id 0 and is the only invisible
    /// kind; it is also transparent, as the air invariant demands.
    pub fn new() -> (r: BlockRegistry)
        ensures
            r.wf(),
    {
        let mut bc: Vec<BlockConfig> = Vec::new();
        bc.push(BlockConfig::invisible("air"));
        bc.push(BlockConfig::new("brick_stone", false, BlockConfig::texture_all((0, 0))));
        bc.push(BlockConfig::new("rails_straight_wood", true, BlockConfig::texture_all((1, 0))));
        bc.push(BlockConfig::new("stone_diamond", false, BlockConfig::texture_all((2, 0))));
        bc.push(BlockConfig::new("furnace", false, BlockConfig::texture_sides((2, 5), (3, 0), (2, 5))));
        bc.push(BlockConfig::new("stone_gravel", false, BlockConfig::texture_all((4, 0))));
        bc.push(BlockConfig::new("dirt_grass", false, BlockConfig::texture_sides((4, 6), (5, 0), (5, 1))));
        bc.push(BlockConfig::new("wood_red", false, BlockConfig::texture_all((0, 1))));
        bc.push(BlockConfig::new("rails_curve", true, BlockConfig::texture_all((1, 1))));
        bc.push(BlockConfig::new("stone_coal_alt", false, BlockConfig::texture_all((2, 1))));
        bc.push(BlockConfig::new("mushroom_tan", true, BlockConfig::texture_all((3, 1))));
        bc.push(BlockConfig::new("dirt_gravel", false, BlockConfig::texture_all((4, 1))));
        bc.push(BlockConfig::new("dirt", false, BlockConfig::texture_all((5, 1))));
        bc.push(BlockConfig::new("wood", false, BlockConfig::texture_all((0, 2))));
        bc.push(BlockConfig::new("rails_curve_wood", true, BlockConfig::texture_all((1, 2))));
        bc.push(BlockConfig::new("stone_coal", false, BlockConfig::texture_all((2, 2))));
        bc.push(BlockConfig::new("mushroom_red", true, BlockConfig::texture_all((3, 2))));
        bc.push(BlockConfig::new("grass_large", true, BlockConfig::texture_all((4, 2))));
        let r = BlockRegistry { configs: bc };
        r
    }

    /// The configuration of a block, total over valid ids: the registry
    /// itself is the only producer of ids.
    pub fn lookup_by_id(&self, block: Block) -> (c: &BlockConfig)
        requires
            self.wf(),
            block.valid(),
        ensures
            *c == self@[block.id()],
            c.name@ == kind_name(block.id()),
            c.is_transparent == kind_transparent(block.id()),
            c.is_invisible == kind_invisible(block.id()),
            forall|s: int| 0 <= s < 6 ==> c.textures@[s] == kind_texture(block.id(), s),
    {
        &self.configs[block.0 as usize]
    }

    /// Id of the first table entry whose name equals `name`, or `None`
    /// when no entry carries that name.
    pub fn try_lookup_by_name(&self, name: &str) -> (r: Option<Block>)
        requires
            self.wf(),
        ensures
            match r {
                Some(b) => {
                    &&& b.valid()
                    &&& kind_name(b.id()) == name@
                    &&& forall|j: int| 0 <= j < b.id() ==> kind_name(j) != name@
                },
                None => forall|i: int| 0 <= i < BLOCK_KIND_COUNT ==> kind_name(i) != name@,
            },
    {
        let mut i: usize = 0;
        while i < BLOCK_KIND_COUNT
            invariant
                self.wf(),
                i <= BLOCK_KIND_COUNT,
                forall|j: int| 0 <= j < i ==> kind_name(j) != name@,
            decreases BLOCK_KIND_COUNT - i,
        {
            let config = &self.configs[i];
            if str_eq(config.name, name) {
                return Some(Block(i as u8));
            }
            i += 1;
        }
        None
    }

    /// Id of the first table entry whose name equals `name`.  An unknown
    /// name is a configuration error, excluded by the precondition.
    pub fn lookup_by_name(&self, name: &str) -> (b: Block)
        requires
            self.wf(),
            exists|i: int| 0 <= i < BLOCK_KIND_COUNT && kind_name(i) == name@,
        ensures
            b.valid(),
            kind_name(b.id()) == name@,
            forall|j: int| 0 <= j < b.id() ==> kind_name(j) != name@,
    {
        match self.try_lookup_by_name(name) {
            Some(b) => b,
            None => {
                proof {
                    let k = choose|k: int| 0 <= k < BLOCK_KIND_COUNT && kind_name(k) == name@;
                    assert(kind_name(k) != name@);
                }
                unreached()
            },
        }
    }
}

/// A block value: an opaque small-integer id resolved against the registry.
/// Equality is by id.
#[derive(Copy, Clone, PartialEq, Eq, Structural, Debug)]
pub struct Block(u8);

impl Block {
    /// The id of this block.
    pub closed spec fn id(self) -> int {
        self.0 as int
    }

    /// The id names an entry of the fixed table.
    pub open spec fn valid(self) -> bool {
        0 <= self.id() < BLOCK_KIND_COUNT
    }

    /// Whether light passes through this block.
    pub open spec fn transparent(self) -> bool {
        kind_transparent(self.id())
    }

    /// Whether this block contributes no geometry at all.
    pub open spec fn invisible(self) -> bool {
        kind_invisible(self.id())
    }

    /// The air block, id 0: invisible and transparent.
    pub fn air() -> (b: Block)
        ensures
            b.id() == 0,
            b.valid(),
    {
        Block(0)
    }

    /// Looks the name up in the fixed table; id 0 is air.  An unknown name
    /// is a configuration error, excluded by the precondition.
    pub fn from_id(id: &str) -> (b: Block)
        requires
            exists|i: int| 0 <= i < BLOCK_KIND_COUNT && kind_name(i) == id@,
        ensures
            b.valid(),
            kind_name(b.id()) == id@,
            forall|j: int| 0 <= j < b.id() ==> kind_name(j) != id@,
    {
        let registry = BlockRegistry::new();
        registry.lookup_by_name(id)
    }

    /// Whether this block is air.
    pub fn is_air(&self) -> (r: bool)
        ensures
            r == (self.id() == 0),
    {
        self.0 == 0
    }

    /// Whether this block can be seen through.
    pub fn is_transparent(&self) -> (r: bool)
        requires
            self.valid(),
        ensures
            r == self.transparent(),
    {
        self.0 == 0 || self.0 == 2 || self.0 == 8 || self.0 == 10 || self.0 == 14
            || self.0 == 16 || self.0 == 17
    }

    /// Whether this block draws nothing at all.
    pub fn is_invisible(&self) -> (r: bool)
        requires
            self.valid(),
        ensures
            r == self.invisible(),
    {
        self.0 == 0
    }

    /// The texture tile this block uses on the given face.
    pub fn texture_pos(&self, side: usize) -> (r: BlockTexturePosition)
        requires
            self.valid(),
            side < 6,
        ensures
            r == kind_texture(self.id(), side as int),
    {
        let textures: [BlockTexturePosition; 6] = if self.0 == 0 {
            BlockConfig::texture_all((0, 0))
        } else if self.0 == 1 {
            BlockConfig::texture_all((0, 0))
        } else if self.0 == 2 {
            BlockConfig::texture_all((1, 0))
        } else if self.0 == 3 {
            BlockConfig::texture_all((2, 0))
        } else if self.0 == 4 {
            BlockConfig::texture_sides((2, 5), (3, 0), (2, 5))
        } else if self.0 == 5 {
            BlockConfig::texture_all((4, 0))
        } else if self.0 == 6 {
            BlockConfig::texture_sides((4, 6), (5, 0), (5, 1))
        } else if self.0 == 7 {
            BlockConfig::texture_all((0, 1))
        } else if self.0 == 8 {
            BlockConfig::texture_all((1, 1))
        } else if self.0 == 9 {
            BlockConfig::texture_all((2, 1))
        } else if self.0 == 10 {
            BlockConfig::texture_all((3, 1))
        } else if self.0 == 11 {
            BlockConfig::texture_all((4, 1))
        } else if self.0 == 12 {
            BlockConfig::texture_all((5, 1))
        } else if self.0 == 13 {
            BlockConfig::texture_all((0, 2))
        } else if self.0 == 14 {
            BlockConfig::texture_all((1, 2))
        } else if self.0 == 15 {
            BlockConfig::texture_all((2, 2))
        } else if self.0 == 16 {
            BlockConfig::texture_all((3, 2))
        } else {
            BlockConfig::texture_all((4, 2))
        };
        textures[side]
    }
}

/// Character-by-character comparison of two strings.
fn str_eq(a: &str, b: &str) -> (r: bool)
    ensures
        r == (a@ == b@),
{
    let alen = a.unicode_len();
    let blen = b.unicode_len();
    if alen != blen {
        return false;
    }
    let mut i: usize = 0;
    while i < alen
        invariant
            i <= alen,
            alen == a@.len(),
            blen == b@.len(),
            alen == blen,
            forall|j: int| 0 <= j < i ==> a@[j] == b@[j],
        decreases alen - i,
    {
        if a.get_char(i) != b.get_char(i) {
            return false;
        }
        i += 1;
    }
    proof {
        assert(a@ =~= b@);
    }
    true
}

} // verus!
