use vstd::prelude::*;

use rand_xoshiro::Xoshiro128StarStar;

use crate::random::{next_random, seeded_rng};

verus! {

/// Side length of the square display the leaves fall on.
pub const DISPLAY_SIZE: u8 = 16;

/// How many leaves can be on the display at once.
pub const MAX_LEAVES: usize = 10;

/// Columns between two leaves spawned in successive frames; shares no factor
/// with `DISPLAY_SIZE`, so successive spawns visit every column.
pub const X_INCR: u8 = 5;

/// The seed of the animation's generator.
pub const RNG_SEED: u64 = 0x63AF_2BA8_046C_E751;

/// A single falling leaf on the display.
#[derive(Clone, Copy, Debug, PartialEq, Eq, Structural)]
pub struct Leaf {
    pub x: u8,
    pub y: u8,
}

/// The column a leaf drifts to from `x` for a random draw `r`: right for
/// five of the eight values of `r % 8`, left for one, straight down for two,
/// wrapping around the display.
pub open spec fn drift(x: int, r: int) -> int {
    let t = r % 8;
    if t <= 4 {
        (x + 1) % 16
    } else if t == 5 {
        (x + 15) % 16
    } else {
        x % 16
    }
}

impl Leaf {
    pub open spec fn active(&self) -> bool {
        self.y < DISPLAY_SIZE
    }

    /// An inactive leaf, parked below the display.
    pub fn new() -> (r: Leaf)
        ensures
            r.x == 0,
            r.y == 0xFF,
            !r.active(),
    {
        Leaf { x: 0, y: 0xFF }
    }

    /// Whether the leaf is still on the display.
    pub fn is_active(&self) -> (r: bool)
        ensures
            r == self.active(),
    {
        self.y < DISPLAY_SIZE
    }

    /// Places the leaf at the top of the display, in the column `r % 16`.
    pub fn init(&mut self, r: u32)
        ensures
            final(self).x == r % 16,
            final(self).y == 0,
    {
        self.x = (r % 16) as u8;
        self.y = 0;
    }

    /// Moves the leaf one row down and drifts it sideways by the draw `r`.
    pub fn step(&mut self, r: u32)
        requires
            old(self).y < 0xFF,
        ensures
            final(self).x == drift(old(self).x as int, r as int),
            final(self).y == old(self).y + 1,
    {
        let t = r % 8;
        let x = self.x % 16;
        if t <= 4 {
            self.x = (x + 1) % 16;
        } else if t == 5 {
            self.x = (x + 15) % 16;
        } else {
            self.x = x;
        }
        self.y = self.y + 1;
    }
}

/// Leaves falling down a 16 x 16 display, driven by a seeded generator.
pub struct FallingLeaves {
    rng: Xoshiro128StarStar,
    leaves: Vec<Leaf>,
    x_prev_frame: Option<u8>,
}

impl FallingLeaves {
    pub closed spec fn spec_leaves(&self) -> Seq<Leaf> {
        self.leaves@
    }

    pub closed spec fn spec_x_prev_frame(&self) -> Option<u8> {
        self.x_prev_frame
    }

    pub open spec fn wf(&self) -> bool {
        &&& self.spec_leaves().len() == MAX_LEAVES
        &&& forall|i: int| 0 <= i < MAX_LEAVES ==> (#[trigger] self.spec_leaves()[i]).x < DISPLAY_SIZE
        &&& forall|i: int| 0 <= i < MAX_LEAVES ==> (#[trigger] self.spec_leaves()[i]).y <= DISPLAY_SIZE || self.spec_leaves()[i].y == 0xFF
        &&& (self.spec_x_prev_frame() matches Some(x) ==> x < DISPLAY_SIZE)
    }

    /// The animation's first state: no leaf on the display.
    pub fn new() -> (r: FallingLeaves)
        ensures
            r.wf(),
            forall|i: int| 0 <= i < MAX_LEAVES ==> !(#[trigger] r.spec_leaves()[i]).active(),
            r.spec_x_prev_frame() == Some((DISPLAY_SIZE - X_INCR) as u8),
    {
        let mut leaves: Vec<Leaf> = Vec::new();
        let mut i: usize = 0;
        while i < MAX_LEAVES
            invariant
                i <= MAX_LEAVES,
                leaves@.len() == i,
                forall|k: int| 0 <= k < i ==> (#[trigger] leaves@[k]) == (Leaf { x: 0, y: 0xFF }),
            decreases MAX_LEAVES - i,
        {
            leaves.push(Leaf::new());
            i = i + 1;
        }
        FallingLeaves { rng: seeded_rng(RNG_SEED), leaves, x_prev_frame: Some(DISPLAY_SIZE - X_INCR) }
    }

    /// Advances the animation by one frame and returns the pixels to light:
    /// every leaf that was on the display moves one row down, and in half of
    /// the frames the first free leaf is spawned at the top.
    pub fn advance(&mut self) -> (lit: Vec<(u8, u8)>)
        requires
            old(self).wf(),
        ensures
            final(self).wf(),
            forall|i: int|
                0 <= i < MAX_LEAVES && (#[trigger] old(self).spec_leaves()[i]).active() ==> final(self).spec_leaves()[i].y
                    == old(self).spec_leaves()[i].y + 1 || (old(self).spec_leaves()[i].y + 1 == DISPLAY_SIZE
                    && final(self).spec_leaves()[i].y == 0),
            forall|i: int|
                0 <= i < MAX_LEAVES && !(#[trigger] old(self).spec_leaves()[i]).active() ==> final(self).spec_leaves()[i]
                    == old(self).spec_leaves()[i] || final(self).spec_leaves()[i].y == 0,
            forall|j: int| 0 <= j < lit@.len() ==> (#[trigger] lit@[j]).0 < DISPLAY_SIZE && lit@[j].1 <= DISPLAY_SIZE,
    {
        let mut lit: Vec<(u8, u8)> = Vec::new();
        let ghost before = self.leaves@;
        let mut i: usize = 0;
        while i < MAX_LEAVES
            invariant
                self.leaves@.len() == MAX_LEAVES,
                before.len() == MAX_LEAVES,
                before == old(self).spec_leaves(),
                old(self).wf(),
                self.x_prev_frame == old(self).spec_x_prev_frame(),
                0 <= i <= MAX_LEAVES,
                forall|k: int| 0 <= k < MAX_LEAVES ==> (#[trigger] self.leaves@[k]).x < DISPLAY_SIZE,
                forall|k: int| 0 <= k < MAX_LEAVES ==> (#[trigger] self.leaves@[k]).y <= DISPLAY_SIZE || self.leaves@[k].y == 0xFF,
                forall|k: int| i <= k < MAX_LEAVES ==> (#[trigger] self.leaves@[k]) == before[k],
                forall|k: int|
                    0 <= k < i && (#[trigger] before[k]).active() ==> self.leaves@[k].y == before[k].y + 1,
                forall|k: int| 0 <= k < i && !(#[trigger] before[k]).active() ==> self.leaves@[k] == before[k],
                forall|j: int| 0 <= j < lit@.len() ==> (#[trigger] lit@[j]).0 < DISPLAY_SIZE && lit@[j].1 <= DISPLAY_SIZE,
            decreases MAX_LEAVES - i,
        {
            let mut leaf = self.leaves[i];
            if leaf.is_active() {
                let r = next_random(&mut self.rng);
                leaf.step(r);
                self.leaves.set(i, leaf);
                lit.push((leaf.x, leaf.y));
            }
            i = i + 1;
        }
        let ghost stepped = self.leaves@;
        let coin = next_random(&mut self.rng);
        if coin % 2 == 0 {
            let mut j: usize = 0;
            while j < MAX_LEAVES
                invariant
                    self.leaves@.len() == MAX_LEAVES,
                    stepped.len() == MAX_LEAVES,
                    before.len() == MAX_LEAVES,
                    before == old(self).spec_leaves(),
                    forall|k: int| 0 <= k < MAX_LEAVES && (#[trigger] before[k]).active() ==> stepped[k].y == before[k].y + 1,
                    forall|k: int| 0 <= k < MAX_LEAVES && !(#[trigger] before[k]).active() ==> stepped[k] == before[k],
                    forall|k: int| 0 <= k < MAX_LEAVES ==> (#[trigger] self.leaves@[k]).x < DISPLAY_SIZE,
                    forall|k: int| 0 <= k < MAX_LEAVES ==> (#[trigger] self.leaves@[k]).y <= DISPLAY_SIZE || self.leaves@[k].y == 0xFF,
                    forall|k: int| 0 <= k < MAX_LEAVES ==> (#[trigger] self.leaves@[k]) == stepped[k] || (!stepped[k].active() && self.leaves@[k].y == 0),
                    self.x_prev_frame matches Some(x) ==> x < DISPLAY_SIZE,
                    forall|j: int| 0 <= j < lit@.len() ==> (#[trigger] lit@[j]).0 < DISPLAY_SIZE && lit@[j].1 <= DISPLAY_SIZE,
                decreases MAX_LEAVES - j,
            {
                let mut leaf = self.leaves[j];
                if !leaf.is_active() {
                    let r: u32 = match self.x_prev_frame {
                        None => next_random(&mut self.rng),
                        Some(x) => ((x + X_INCR) % 16) as u32,
                    };
                    leaf.init(r);
                    self.leaves.set(j, leaf);
                    self.x_prev_frame = Some(leaf.x);
                    lit.push((leaf.x, leaf.y));
                    break;
                }
                j = j + 1;
            }
        } else {
            self.x_prev_frame = None;
        }
        lit
    }
}

} // verus!
