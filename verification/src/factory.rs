use vstd::prelude::*;
use crate::tiles::{CeramicTile, TileBag};

verus! {

/// One of the shared factory displays: a stable index assigned by the
/// controller at match setup, and the tiles drawn onto it for the round.
#[verifier::ext_equal]
pub struct Factory {
    pub no: usize,
    pub stock: TileBag,
}

impl Factory {
    pub open spec fn wf(self) -> bool {
        self.stock.wf()
    }

    /// A fresh, empty display carrying the index the controller assigned it.
    pub fn new(no: usize) -> (f: Factory)
        ensures
            f.wf(),
            f.no == no,
            forall|i: int| 0 <= i < 5 ==> f.stock@[i] == 0,
            f.stock.total() == 0,
    {
        Factory { no, stock: TileBag::new() }
    }

    /// The number of tiles on the display, over all colors.
    pub fn sum(&self) -> (n: u64)
        requires
            self.wf(),
        ensures
            n == self.stock.total(),
    {
        self.stock.total_count()
    }

    pub fn add(&mut self, ceramic_tile: CeramicTile, num: u32)
        requires
            old(self).wf(),
            old(self).stock.count_of(ceramic_tile) + num <= u32::MAX,
        ensures
            final(self).wf(),
            final(self).no == old(self).no,
            final(self).stock@ == old(self).stock@.update(
                crate::tiles::color_idx(ceramic_tile),
                (old(self).stock.count_of(ceramic_tile) + num) as u32,
            ),
            final(self).stock.total() == old(self).stock.total() + num,
    {
        self.stock.add(ceramic_tile, num);
    }

    /// Empties the display, handing its whole stock out; the caller keeps the
    /// chosen color's tiles and routes the rest to the center pool.
    pub fn catch(&mut self) -> (taken: TileBag)
        requires
            old(self).wf(),
        ensures
            final(self).wf(),
            final(self).no == old(self).no,
            taken@ == old(self).stock@,
            forall|i: int| 0 <= i < 5 ==> final(self).stock@[i] == 0,
            final(self).stock.total() == 0,
    {
        self.stock.drain()
    }

    /// Whether the display holds at least one tile of the color.
    pub fn contains(&self, ceramic_tile: CeramicTile) -> (r: bool)
        requires
            self.wf(),
        ensures
            r == (self.stock.count_of(ceramic_tile) > 0),
    {
        self.stock.get(ceramic_tile) > 0
    }
}

} // verus!
