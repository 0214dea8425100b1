//! A level in play: its blocks, split into those still standing and those
//! already destroyed, and the choice of what a ball strikes next.
//!
//! The blocks of a level are kept in one sequence for as long as the level
//! lasts. The blocks still standing come first, the destroyed ones after
//! them; `alive` is where the second part begins. To destroy a block is to
//! exchange it with the last one standing and to move the boundary down by
//! one, so that nothing else moves and the sequence never changes its
//! length.

use crate::collision::{
    all_miss, earliest, earliest_index, is_earliest, lemma_earliest_exists,
    lemma_earliest_extends, lemma_earliest_unique, Hit, RectangleSide,
};
use crate::level::{
    field_rect, paddle_rect, wall_rect, LayoutView, LevelLayout, Rect, Wall,
    BOTTOM_TO_BLOCK_BOTTOM, BOTTOM_TO_PADDLE_BOTTOM, COORD_LIMIT, PADDLE_HEIGHT, PADDLE_RADIUS,
    WALL,
};
use vstd::prelude::*;

verus! {

/// A block of a level, and how often it has been struck.
#[derive(Clone, Copy, Debug, PartialEq, Eq, Structural)]
pub struct Block {
    /// Where the block lies.
    pub rect: Rect,
    /// How often it has been struck.
    pub hits: u32,
}

/// What a ball can strike.
#[derive(Clone, Copy, Debug, PartialEq, Eq, Structural)]
pub enum Obstacle {
    /// The block that stood at this position among the blocks still
    /// standing when it was struck.
    Block(usize),
    Wall(Wall),
    Paddle,
}

/// The contact that ends a ball's free flight: when, on which side of the
/// obstacle, and on which obstacle.
#[derive(Clone, Copy, Debug, PartialEq, Eq, Structural)]
pub struct Contact {
    /// The order key of the time of impact, as the candidate gave it.
    pub time: u32,
    /// The side of the obstacle that was struck.
    pub side: RectangleSide,
    /// What was struck.
    pub obstacle: Obstacle,
}

impl Obstacle {
    /// Whether the flight up to a contact with this obstacle is taken off
    /// the time that the ball has left in the frame. It is for the paddle
    /// alone: after a block or a wall the ball goes on with all the time it
    /// had.
    pub fn consumes_time(self) -> (r: bool)
        ensures
            r == (self is Paddle),
    {
        match self {
            Obstacle::Paddle => true,
            _ => false,
        }
    }
}

/// The block after one more strike.
pub open spec fn struck(block: Block) -> Block {
    Block { rect: block.rect, hits: (block.hits + 1) as u32 }
}

/// The candidates of one flight, in the order in which they are weighed:
/// one for each block still standing, then the left, the right and the top
/// wall.
pub open spec fn obstacle_hits(
    blocks: Seq<Option<Hit>>,
    left: Option<Hit>,
    right: Option<Hit>,
    top: Option<Hit>,
) -> Seq<Option<Hit>> {
    blocks + seq![left, right, top]
}

/// The state of a level in play.
pub struct LevelView {
    pub width: int,
    pub height: int,
    pub blocks: Seq<Block>,
    pub alive: nat,
    pub launching: bool,
}

impl LevelView {
    /// The playfield fits, the boundary lies within the sequence, which a
    /// vector can hold, the blocks before it are untouched and each block
    /// after it was struck once.
    pub open spec fn wf(self) -> bool {
        &&& 0 <= self.width
        &&& self.width + 2 * WALL <= COORD_LIMIT
        &&& BOTTOM_TO_BLOCK_BOTTOM <= self.height
        &&& self.height + WALL <= COORD_LIMIT
        &&& self.alive <= self.blocks.len() <= usize::MAX
        &&& forall|k: int| 0 <= k < self.alive ==> (#[trigger] self.blocks[k]).hits == 0
        &&& forall|k: int|
            self.alive <= k < self.blocks.len() ==> (#[trigger] self.blocks[k]).hits == 1
    }

    /// A level as it begins: every block stands, and a ball waits on the
    /// paddle.
    pub open spec fn fresh(layout: LayoutView) -> LevelView {
        LevelView {
            width: layout.width(),
            height: layout.height(),
            blocks: layout.blocks.map_values(|rect: Rect| Block { rect, hits: 0 }),
            alive: layout.blocks.len(),
            launching: true,
        }
    }

    /// The blocks still standing.
    pub open spec fn standing(self) -> Seq<Block> {
        self.blocks.take(self.alive as int)
    }

    /// No block stands.
    pub open spec fn cleared(self) -> bool {
        self.alive == 0
    }

    /// The level after the block at `i` is struck and destroyed: it changes
    /// places with the last block standing, and the boundary moves down.
    pub open spec fn destroy(self, i: int) -> LevelView {
        let last = self.alive - 1;
        LevelView {
            blocks: self.blocks.update(i, self.blocks[last]).update(last, struck(self.blocks[i])),
            alive: last as nat,
            ..self
        }
    }

    /// The obstacle that the candidate at position `k` stands for.
    pub open spec fn obstacle_at(self, k: int) -> Obstacle {
        if k < self.alive {
            Obstacle::Block(k as usize)
        } else if k == self.alive {
            Obstacle::Wall(Wall::Left)
        } else if k == self.alive + 1 {
            Obstacle::Wall(Wall::Right)
        } else {
            Obstacle::Wall(Wall::Top)
        }
    }

    /// What the ball strikes: the earliest contact with a block or a wall;
    /// where there is none, the paddle if the ball meets its upper side;
    /// else nothing.
    pub open spec fn contact(self, hits: Seq<Option<Hit>>, paddle: Option<Hit>) -> Option<
        Contact,
    > {
        match earliest_index(hits) {
            Some(k) => Some(
                Contact { time: hits[k]->0.time, side: hits[k]->0.side, obstacle: self.obstacle_at(k) },
            ),
            None => match paddle {
                Some(h) => if h.side == RectangleSide::North {
                    Some(Contact { time: h.time, side: h.side, obstacle: Obstacle::Paddle })
                } else {
                    None
                },
                None => None,
            },
        }
    }

    /// The level after a contact: a block that was struck is destroyed, and
    /// nothing else changes.
    pub open spec fn after(self, contact: Option<Contact>) -> LevelView {
        match contact {
            Some(Contact { obstacle: Obstacle::Block(i), .. }) => self.destroy(i as int),
            _ => self,
        }
    }

    /// The level once the ball that waited has left the paddle.
    pub open spec fn launch(self) -> LevelView {
        LevelView { launching: false, ..self }
    }

    /// A ball was launched and none is left in play.
    pub open spec fn ball_lost(self, active_balls: nat) -> bool {
        active_balls == 0 && !self.launching
    }

    /// The level at the end of a frame that leaves `active_balls` balls in
    /// play: where the last ball was lost, the next one waits on the paddle.
    pub open spec fn settle(self, active_balls: nat) -> LevelView {
        if self.ball_lost(active_balls) {
            LevelView { launching: true, ..self }
        } else {
            self
        }
    }
}

/// A level in play.
#[derive(Debug)]
pub struct LevelState {
    width: i32,
    height: i32,
    blocks: Vec<Block>,
    alive: usize,
    launching: bool,
}

impl View for LevelState {
    type V = LevelView;

    closed spec fn view(&self) -> LevelView {
        LevelView {
            width: self.width as int,
            height: self.height as int,
            blocks: self.blocks@,
            alive: self.alive as nat,
            launching: self.launching,
        }
    }
}

impl LevelState {
    /// Sets up a level from its layout.
    pub fn new(layout: &LevelLayout) -> (level: LevelState)
        requires
            layout@.wf(),
        ensures
            level@ == LevelView::fresh(layout@),
            level@.wf(),
    {
        let count = layout.block_count();
        let mut blocks: Vec<Block> = Vec::new();
        let mut k: usize = 0;
        while k < count
            invariant
                k <= count,
                count == layout@.blocks.len(),
                blocks@.len() == k,
                forall|j: int|
                    0 <= j < k ==> #[trigger] blocks@[j] == (Block {
                        rect: layout@.blocks[j],
                        hits: 0,
                    }),
            decreases count - k,
        {
            blocks.push(Block { rect: layout.block(k), hits: 0 });
            k = k + 1;
        }
        assert(blocks@ =~= layout@.blocks.map_values(|rect: Rect| Block { rect, hits: 0 }));
        LevelState {
            width: layout.width(),
            height: layout.height(),
            blocks,
            alive: count,
            launching: true,
        }
    }

    /// Width of the playfield.
    pub fn width(&self) -> (w: i32)
        ensures
            w == self@.width,
    {
        self.width
    }

    /// Height of the playfield.
    pub fn height(&self) -> (h: i32)
        ensures
            h == self@.height,
    {
        self.height
    }

    /// The playfield itself.
    pub fn field(&self) -> (r: Rect)
        ensures
            r == field_rect(self@.width, self@.height),
    {
        Rect { x: 0, y: 0, w: self.width, h: self.height }
    }

    /// The paddle as it stands when the level begins.
    pub fn paddle(&self) -> (r: Rect)
        requires
            self@.wf(),
        ensures
            r == paddle_rect(self@.width),
    {
        Rect {
            x: self.width / 2 - PADDLE_RADIUS,
            y: BOTTOM_TO_PADDLE_BOTTOM,
            w: 2 * PADDLE_RADIUS,
            h: PADDLE_HEIGHT,
        }
    }

    /// One of the walls.
    pub fn wall(&self, wall: Wall) -> (r: Rect)
        requires
            self@.wf(),
        ensures
            r == wall_rect(wall, self@.width, self@.height),
    {
        match wall {
            Wall::Left => Rect { x: -WALL, y: 0, w: WALL, h: self.height },
            Wall::Right => Rect { x: self.width, y: 0, w: WALL, h: self.height },
            Wall::Top => Rect { x: -WALL, y: self.height, w: self.width + 2 * WALL, h: WALL },
        }
    }

    /// Number of blocks, standing or destroyed.
    pub fn block_count(&self) -> (n: usize)
        ensures
            n == self@.blocks.len(),
    {
        self.blocks.len()
    }

    /// Number of blocks still standing.
    pub fn alive_count(&self) -> (n: usize)
        ensures
            n == self@.alive,
    {
        self.alive
    }

    /// The block at position `k`; it stands if `k` is below `alive_count`.
    pub fn block(&self, k: usize) -> (block: Block)
        requires
            k < self@.blocks.len(),
        ensures
            block == self@.blocks[k as int],
    {
        self.blocks[k]
    }

    /// Whether a ball waits on the paddle.
    pub fn is_launching_ball(&self) -> (b: bool)
        ensures
            b == self@.launching,
    {
        self.launching
    }

    /// Whether no block stands.
    pub fn is_cleared(&self) -> (b: bool)
        ensures
            b == self@.cleared(),
    {
        self.alive == 0
    }

    /// Strikes and destroys the block at `i`, which must stand.
    pub fn destroy(&mut self, i: usize)
        requires
            old(self)@.wf(),
            i < old(self)@.alive,
        ensures
            final(self)@ == old(self)@.destroy(i as int),
            final(self)@.wf(),
    {
        let last = self.alive - 1;
        let gone = Block { rect: self.blocks[i].rect, hits: self.blocks[i].hits + 1 };
        let moved = self.blocks[last];
        self.blocks[i] = moved;
        self.blocks[last] = gone;
        self.alive = last;
    }

    /// Decides what a ball strikes on its flight and lets the level bear
    /// the consequence. `blocks` holds one candidate for each block still
    /// standing, in their order; `left`, `right` and `top` are the
    /// candidates of the walls, `paddle` that of the paddle.
    pub fn resolve(
        &mut self,
        blocks: &[Option<Hit>],
        left: Option<Hit>,
        right: Option<Hit>,
        top: Option<Hit>,
        paddle: Option<Hit>,
    ) -> (r: Option<Contact>)
        requires
            old(self)@.wf(),
            blocks@.len() == old(self)@.alive,
        ensures
            r == old(self)@.contact(obstacle_hits(blocks@, left, right, top), paddle),
            r matches Some(Contact { obstacle: Obstacle::Block(i), .. }) ==> i < old(self)@.alive,
            final(self)@ == old(self)@.after(r),
            final(self)@.wf(),
    {
        let ghost level = self@;
        let ghost hits0 = blocks@;
        let ghost hits1 = hits0.push(left);
        let ghost hits2 = hits1.push(right);
        let ghost hits3 = hits2.push(top);
        assert(hits3 =~= obstacle_hits(blocks@, left, right, top));
        let best0 = match earliest(blocks) {
            Some(i) => {
                let hit = blocks[i].unwrap();
                Some(Contact { time: hit.time, side: hit.side, obstacle: Obstacle::Block(i) })
            },
            None => None,
        };
        let best1 = or_earlier(best0, left, Obstacle::Wall(Wall::Left));
        proof {
            lemma_or_earlier(level, hits0, best0, left);
        }
        let best2 = or_earlier(best1, right, Obstacle::Wall(Wall::Right));
        proof {
            lemma_or_earlier(level, hits1, best1, right);
        }
        let best3 = or_earlier(best2, top, Obstacle::Wall(Wall::Top));
        proof {
            lemma_or_earlier(level, hits2, best2, top);
            lemma_holds(level, hits3, best3);
        }
        match best3 {
            Some(contact) => {
                if let Obstacle::Block(i) = contact.obstacle {
                    self.destroy(i);
                }
                Some(contact)
            },
            None => match paddle {
                Some(hit) => match hit.side {
                    RectangleSide::North => Some(
                        Contact { time: hit.time, side: hit.side, obstacle: Obstacle::Paddle },
                    ),
                    _ => None,
                },
                None => None,
            },
        }
    }

    /// Lets the waiting ball go. Returns whether one was waiting.
    pub fn launch(&mut self) -> (launched: bool)
        ensures
            launched == old(self)@.launching,
            final(self)@ == old(self)@.launch(),
            old(self)@.wf() ==> final(self)@.wf(),
    {
        let launched = self.launching;
        self.launching = false;
        launched
    }

    /// Ends a frame that leaves `active_balls` balls in play. Returns
    /// whether the last ball was lost; then the next one waits on the
    /// paddle.
    pub fn settle(&mut self, active_balls: usize) -> (lost: bool)
        ensures
            lost == old(self)@.ball_lost(active_balls as nat),
            final(self)@ == old(self)@.settle(active_balls as nat),
            old(self)@.wf() ==> final(self)@.wf(),
    {
        if active_balls == 0 && !self.launching {
            self.launching = true;
            true
        } else {
            false
        }
    }
}

/// `best` is the earliest contact among the candidates `hits` of a level,
/// with the obstacle that its position stands for.
spec fn holds(level: LevelView, hits: Seq<Option<Hit>>, best: Option<Contact>) -> bool {
    match best {
        None => all_miss(hits),
        Some(c) => exists|k: int|
            {
                &&& #[trigger] is_earliest(hits, k)
                &&& hits[k] == Some(Hit { time: c.time, side: c.side })
                &&& c.obstacle == level.obstacle_at(k)
            },
    }
}

/// The earlier of the best contact so far and the next candidate; the best
/// so far where the two are equal.
spec fn spec_or_earlier(best: Option<Contact>, next: Option<Hit>, obstacle: Obstacle) -> Option<
    Contact,
> {
    match next {
        None => best,
        Some(h) => match best {
            Some(b) if b.time <= h.time => best,
            _ => Some(Contact { time: h.time, side: h.side, obstacle }),
        },
    }
}

fn or_earlier(best: Option<Contact>, next: Option<Hit>, obstacle: Obstacle) -> (r: Option<Contact>)
    ensures
        r == spec_or_earlier(best, next, obstacle),
{
    match next {
        None => best,
        Some(h) => match best {
            Some(b) => if b.time <= h.time {
                best
            } else {
                Some(Contact { time: h.time, side: h.side, obstacle })
            },
            None => Some(Contact { time: h.time, side: h.side, obstacle }),
        },
    }
}

proof fn lemma_or_earlier(
    level: LevelView,
    hits: Seq<Option<Hit>>,
    best: Option<Contact>,
    next: Option<Hit>,
)
    requires
        holds(level, hits, best),
    ensures
        holds(
            level,
            hits.push(next),
            spec_or_earlier(best, next, level.obstacle_at(hits.len() as int)),
        ),
{
    let more = hits.push(next);
    let n = hits.len() as int;
    assert forall|j: int| 0 <= j < n implies more[j] == hits[j] by {}
    match best {
        None => {
            if next is Some {
                assert(is_earliest(more, n));
            }
        },
        Some(c) => {
            let k = choose|k: int|
                {
                    &&& #[trigger] is_earliest(hits, k)
                    &&& hits[k] == Some(Hit { time: c.time, side: c.side })
                    &&& c.obstacle == level.obstacle_at(k)
                };
            lemma_earliest_extends(hits, k, next);
        },
    }
}

proof fn lemma_holds(level: LevelView, hits: Seq<Option<Hit>>, best: Option<Contact>)
    requires
        holds(level, hits, best),
    ensures
        best is None <==> earliest_index(hits) is None,
        best matches Some(c) ==> level.contact(hits, None) == Some(c),
{
    if let Some(c) = best {
        let k = choose|k: int|
            {
                &&& #[trigger] is_earliest(hits, k)
                &&& hits[k] == Some(Hit { time: c.time, side: c.side })
                &&& c.obstacle == level.obstacle_at(k)
            };
        lemma_earliest_unique(hits, k, choose|i: int| is_earliest(hits, i));
    }
}

/// A level begins well formed, with every block standing.
pub proof fn law_fresh_level(layout: LayoutView)
    requires
        layout.wf(),
    ensures
        LevelView::fresh(layout).wf(),
        LevelView::fresh(layout).alive == layout.blocks.len(),
        LevelView::fresh(layout).standing() == LevelView::fresh(layout).blocks,
{
}

/// No operation on a level raises the number of blocks standing: a flight
/// lowers it by one where a block is struck and leaves it otherwise, and
/// launching a ball or ending a frame leaves it as it is.
pub proof fn law_alive_never_grows(
    level: LevelView,
    hits: Seq<Option<Hit>>,
    paddle: Option<Hit>,
    active_balls: nat,
)
    requires
        level.wf(),
    ensures
        level.after(level.contact(hits, paddle)).alive <= level.alive,
        level.contact(hits, paddle) matches Some(Contact { obstacle: Obstacle::Block(_), .. })
            ==> level.after(level.contact(hits, paddle)).alive == level.alive - 1,
        level.launch().alive == level.alive,
        level.settle(active_balls).alive == level.alive,
{
    if !all_miss(hits) {
        lemma_earliest_exists(hits);
    }
}

/// A destroyed block ends up among the destroyed: struck once, it stands
/// where the boundary now lies. The sequence keeps its length, and the
/// blocks destroyed earlier stay where they were.
pub proof fn law_destroyed_block_is_retired(level: LevelView, i: int)
    requires
        level.wf(),
        0 <= i < level.alive,
    ensures
        level.destroy(i).wf(),
        level.destroy(i).blocks.len() == level.blocks.len(),
        level.destroy(i).alive == level.alive - 1,
        level.destroy(i).blocks[level.alive - 1] == struck(level.blocks[i]),
        forall|k: int|
            level.alive <= k < level.blocks.len() ==> level.destroy(i).blocks[k] == level.blocks[k],
{
}

/// The blocks that stand after a block is destroyed are those that stood
/// before without the destroyed one. Only the last of them may have moved:
/// into the place of the destroyed one.
pub proof fn law_survivors_kept(level: LevelView, i: int)
    requires
        level.wf(),
        0 <= i < level.alive,
    ensures
        level.destroy(i).standing().to_multiset() == level.standing().to_multiset().remove(
            level.blocks[i],
        ),
        forall|k: int|
            0 <= k < level.alive - 1 && k != i ==> level.destroy(i).blocks[k] == level.blocks[k],
        i < level.alive - 1 ==> level.destroy(i).blocks[i] == level.blocks[level.alive - 1],
{
    let before = level.standing();
    let after = level.destroy(i).standing();
    let last = level.alive - 1;
    broadcast use vstd::seq_lib::group_to_multiset_ensures;

    if i == last {
        assert(after =~= before.remove(i));
    } else {
        let rest = before.remove(i);
        let body = rest.drop_last();
        assert(rest =~= body.push(before[last]));
        assert(after =~= body.insert(i, before[last]));
        assert(rest.to_multiset() =~= body.to_multiset().insert(before[last]));
    }
}

} // verus!
