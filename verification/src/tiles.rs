use vstd::prelude::*;

verus! {

/// The five tile colors of the game. The set is closed; colors have no order,
/// only identity.
#[derive(Clone, Copy, PartialEq, Eq, Structural, Debug)]
pub enum CeramicTile {
    Black,
    Red,
    Yellow,
    Blue,
    White,
}

/// Position of a color in the fixed color cycle (the order of the top wall row).
pub open spec fn color_idx(c: CeramicTile) -> int {
    match c {
        CeramicTile::Blue => 0,
        CeramicTile::Yellow => 1,
        CeramicTile::Red => 2,
        CeramicTile::Black => 3,
        CeramicTile::White => 4,
    }
}

/// The color at a position of the fixed color cycle.
pub open spec fn color_of_idx(i: int) -> CeramicTile {
    if i == 0 {
        CeramicTile::Blue
    } else if i == 1 {
        CeramicTile::Yellow
    } else if i == 2 {
        CeramicTile::Red
    } else if i == 3 {
        CeramicTile::Black
    } else {
        CeramicTile::White
    }
}

pub fn color_index(c: CeramicTile) -> (r: usize)
    ensures
        r == color_idx(c),
{
    match c {
        CeramicTile::Blue => 0,
        CeramicTile::Yellow => 1,
        CeramicTile::Red => 2,
        CeramicTile::Black => 3,
        CeramicTile::White => 4,
    }
}

pub fn color_of(i: usize) -> (c: CeramicTile)
    requires
        i < 5,
    ensures
        c == color_of_idx(i as int),
{
    if i == 0 {
        CeramicTile::Blue
    } else if i == 1 {
        CeramicTile::Yellow
    } else if i == 2 {
        CeramicTile::Red
    } else if i == 3 {
        CeramicTile::Black
    } else {
        CeramicTile::White
    }
}

/// Total number of tiles in a five-slot color-count sequence.
pub open spec fn bag_total(s: Seq<u32>) -> int
    recommends
        s.len() == 5,
{
    s[0] + s[1] + s[2] + s[3] + s[4]
}

/// A multiset of tiles, stored as one count per color, indexed by `color_idx`.
/// This single weighted-count shape backs the draw bag, the discard pile, each
/// factory's stock and the center pool.
#[verifier::ext_equal]
pub struct TileBag {
    pub counts: Vec<u32>,
}

impl View for TileBag {
    type V = Seq<u32>;

    open spec fn view(&self) -> Seq<u32> {
        self.counts@
    }
}

impl TileBag {
    pub open spec fn wf(self) -> bool {
        self@.len() == 5
    }

    pub open spec fn count_of(self, c: CeramicTile) -> int {
        self@[color_idx(c)] as int
    }

    pub open spec fn total(self) -> int {
        bag_total(self@)
    }

    /// An empty bag: every color's count is zero.
    pub fn new() -> (b: TileBag)
        ensures
            b.wf(),
            forall|i: int| 0 <= i < 5 ==> b@[i] == 0,
            b.total() == 0,
    {
        let counts: Vec<u32> = vec![0, 0, 0, 0, 0];
        TileBag { counts }
    }

    /// A bag holding the same number of tiles of every color.
    pub fn uniform(per_color: u32) -> (b: TileBag)
        ensures
            b.wf(),
            forall|i: int| 0 <= i < 5 ==> b@[i] == per_color,
            b.total() == 5 * per_color,
    {
        let counts: Vec<u32> = vec![per_color, per_color, per_color, per_color, per_color];
        TileBag { counts }
    }

    pub fn get(&self, c: CeramicTile) -> (n: u32)
        requires
            self.wf(),
        ensures
            n == self.count_of(c),
    {
        let i = color_index(c);
        self.counts[i]
    }

    pub fn add(&mut self, c: CeramicTile, n: u32)
        requires
            old(self).wf(),
            old(self).count_of(c) + n <= u32::MAX,
        ensures
            final(self).wf(),
            final(self)@ == old(self)@.update(color_idx(c), (old(self).count_of(c) + n) as u32),
            final(self).total() == old(self).total() + n,
    {
        let i = color_index(c);
        self.counts[i] = self.counts[i] + n;
    }

    pub fn remove(&mut self, c: CeramicTile, n: u32)
        requires
            old(self).wf(),
            n <= old(self).count_of(c),
        ensures
            final(self).wf(),
            final(self)@ == old(self)@.update(color_idx(c), (old(self).count_of(c) - n) as u32),
            final(self).total() == old(self).total() - n,
    {
        let i = color_index(c);
        self.counts[i] = self.counts[i] - n;
    }

    /// Removes and returns every tile of one color.
    pub fn remove_all(&mut self, c: CeramicTile) -> (n: u32)
        requires
            old(self).wf(),
        ensures
            final(self).wf(),
            n == old(self).count_of(c),
            final(self)@ == old(self)@.update(color_idx(c), 0u32),
            final(self).total() == old(self).total() - n,
    {
        let i = color_index(c);
        let n = self.counts[i];
        self.counts[i] = 0;
        n
    }

    /// Empties the bag, handing its whole contents out as a new bag.
    pub fn drain(&mut self) -> (b: TileBag)
        requires
            old(self).wf(),
        ensures
            final(self).wf(),
            b@ == old(self)@,
            forall|i: int| 0 <= i < 5 ==> final(self)@[i] == 0,
            final(self).total() == 0,
    {
        let out = TileBag { counts: vec![self.counts[0], self.counts[1], self.counts[2], self.counts[3], self.counts[4]] };
        self.counts = vec![0, 0, 0, 0, 0];
        proof {
            assert(out@ =~= old(self)@);
        }
        out
    }

    /// Merges the whole contents of `other` into this bag.
    pub fn absorb(&mut self, other: TileBag)
        requires
            old(self).wf(),
            other.wf(),
            forall|i: int| 0 <= i < 5 ==> old(self)@[i] + other@[i] <= u32::MAX,
        ensures
            final(self).wf(),
            forall|i: int| 0 <= i < 5 ==> final(self)@[i] == old(self)@[i] + other@[i],
            final(self).total() == old(self).total() + other.total(),
    {
        let mut i: usize = 0;
        while i < 5
            invariant
                old(self).wf(),
                other.wf(),
                self@.len() == 5,
                i <= 5,
                forall|k: int| 0 <= k < i ==> self@[k] == old(self)@[k] + other@[k],
                forall|k: int| i <= k < 5 ==> self@[k] == old(self)@[k],
                forall|k: int| 0 <= k < 5 ==> old(self)@[k] + other@[k] <= u32::MAX,
            decreases 5 - i,
        {
            self.counts[i] = self.counts[i] + other.counts[i];
            i = i + 1;
        }
    }

    /// The number of tiles in the bag, over all colors.
    pub fn total_count(&self) -> (t: u64)
        requires
            self.wf(),
        ensures
            t == self.total(),
    {
        self.counts[0] as u64 + self.counts[1] as u64 + self.counts[2] as u64 + self.counts[3] as u64
            + self.counts[4] as u64
    }
}

} // verus!
