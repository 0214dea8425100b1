//! The game as a whole: its three scenes, the score, the balls in reserve,
//! and what a key or a frame does to them.
//!
//! A frame is taken in three steps. `begin_step` decides, from the state
//! that the last frame left, whether the level is over. `resolve` is then
//! called for every flight of every ball. `end_step` accounts for lost
//! balls and carries out what `begin_step` decided.

use crate::collision::{lemma_earliest_exists, Hit};
use crate::level::{LayoutView, LevelLayout};
use crate::playfield::{
    law_alive_never_grows, law_destroyed_block_is_retired, law_fresh_level, obstacle_hits,
    Contact, LevelState, LevelView, Obstacle,
};
use vstd::prelude::*;

verus! {

/// Points awarded for a destroyed block.
pub const POINTS_PER_BLOCK: u64 = 10;

/// Balls in reserve when a game begins.
pub const INITIAL_BALLS: u32 = 3;

/// What a held direction key adds to the paddle's speed in each frame.
pub const PADDLE_PUSH: i32 = 96;

/// The keys that the game tells apart.
#[derive(Clone, Copy, Debug, PartialEq, Eq, Structural)]
pub enum Key {
    Left,
    Right,
    Launch,
    Other,
}

/// The buttons of a pointing device.
#[derive(Clone, Copy, Debug, PartialEq, Eq, Structural)]
pub enum MouseButton {
    Left,
    Right,
    Middle,
    Other,
}

/// What a key did beyond being recorded as held or released.
#[derive(Clone, Copy, Debug, PartialEq, Eq, Structural)]
pub enum KeyEffect {
    Nothing,
    /// A game began: the first level was set up.
    LevelEntered,
    /// The waiting ball left the paddle.
    BallLaunched,
    /// The game went back to its opening scene.
    Restarted,
}

/// What is to become of the scene at the end of the frame.
#[derive(Clone, Copy, Debug, PartialEq, Eq, Structural)]
pub enum Pending {
    /// The level goes on.
    Stay,
    /// The level is cleared: the next one follows, or the end of the game.
    Advance,
    /// No ball is left: the game ends.
    Finish,
}

/// Where the game stands.
#[derive(Debug)]
pub enum Scene {
    Start,
    Level(LevelState),
    Finish,
}

/// Where the game stands, in the model.
pub enum SceneView {
    Start,
    Level(LevelView),
    Finish,
}

impl View for Scene {
    type V = SceneView;

    open spec fn view(&self) -> SceneView {
        match self {
            Scene::Start => SceneView::Start,
            Scene::Level(level) => SceneView::Level(level@),
            Scene::Finish => SceneView::Finish,
        }
    }
}

/// The layouts held by a vector of levels.
pub open spec fn layouts_of(levels: Seq<LevelLayout>) -> Seq<LayoutView> {
    levels.map_values(|level: LevelLayout| level@)
}

/// The number of blocks in the first `n` levels together.
pub open spec fn blocks_before(levels: Seq<LayoutView>, n: int) -> int
    decreases n,
{
    if n <= 0 {
        0
    } else {
        blocks_before(levels, n - 1) + levels[n - 1].blocks.len()
    }
}

/// The state of the game.
pub struct GameView {
    pub score: nat,
    pub balls_left: nat,
    pub current_level: nat,
    pub levels: Seq<LayoutView>,
    pub left_held: bool,
    pub right_held: bool,
    pub pending: Pending,
    pub scene: SceneView,
}

impl GameView {
    /// There is a level to play, every level is well formed, and the points
    /// of all blocks together fit the score.
    pub open spec fn playable(levels: Seq<LayoutView>) -> bool {
        &&& levels.len() > 0
        &&& forall|k: int| 0 <= k < levels.len() ==> (#[trigger] levels[k]).wf()
        &&& POINTS_PER_BLOCK * blocks_before(levels, levels.len() as int) <= u64::MAX
    }

    /// The levels are playable. While a level is played, it is well formed,
    /// it is the current one of the levels, the score is the worth of all
    /// blocks destroyed since the game began, and the level is not to be
    /// left as cleared while a block stands. Outside a level nothing is
    /// pending.
    pub open spec fn wf(self) -> bool {
        &&& Self::playable(self.levels)
        &&& self.current_level <= self.levels.len()
        &&& self.balls_left <= u32::MAX
        &&& match self.scene {
            SceneView::Level(level) => {
                &&& level.wf()
                &&& self.current_level < self.levels.len()
                &&& level.width == self.levels[self.current_level as int].width()
                &&& level.height == self.levels[self.current_level as int].height()
                &&& level.blocks.len() == self.levels[self.current_level as int].blocks.len()
                &&& self.score == POINTS_PER_BLOCK * (blocks_before(
                    self.levels,
                    self.current_level as int,
                ) + level.blocks.len() - level.alive)
                &&& self.pending == Pending::Advance ==> level.cleared()
            },
            _ => self.pending == Pending::Stay && self.score <= u64::MAX,
        }
    }

    /// The game before its first key: the opening scene.
    pub open spec fn initial(levels: Seq<LayoutView>) -> GameView {
        GameView {
            score: 0,
            balls_left: 0,
            current_level: 0,
            levels,
            left_held: false,
            right_held: false,
            pending: Pending::Stay,
            scene: SceneView::Start,
        }
    }

    /// The game with the direction keys recorded: `Left` and `Right` are
    /// held from when they go down until they come up.
    pub open spec fn hold(self, key: Key, pressed: bool) -> GameView {
        GameView {
            left_held: if key == Key::Left {
                pressed
            } else {
                self.left_held
            },
            right_held: if key == Key::Right {
                pressed
            } else {
                self.right_held
            },
            ..self
        }
    }

    /// What a key does beyond being recorded. In the opening scene any key
    /// that goes down begins a game; in a level the launch key lets the
    /// waiting ball go; in the closing scene any key that goes down leads
    /// back to the opening scene.
    pub open spec fn key_effect(self, key: Key, pressed: bool) -> KeyEffect {
        match self.scene {
            SceneView::Start => if pressed {
                KeyEffect::LevelEntered
            } else {
                KeyEffect::Nothing
            },
            SceneView::Level(level) => if key == Key::Launch && pressed && level.launching {
                KeyEffect::BallLaunched
            } else {
                KeyEffect::Nothing
            },
            SceneView::Finish => if pressed {
                KeyEffect::Restarted
            } else {
                KeyEffect::Nothing
            },
        }
    }

    /// The game after a key went down or came up.
    pub open spec fn on_key(self, key: Key, pressed: bool) -> GameView {
        let held = self.hold(key, pressed);
        match self.key_effect(key, pressed) {
            KeyEffect::Nothing => held,
            KeyEffect::LevelEntered => GameView {
                score: 0,
                balls_left: INITIAL_BALLS as nat,
                current_level: 0,
                pending: Pending::Stay,
                scene: SceneView::Level(LevelView::fresh(self.levels[0])),
                ..held
            },
            KeyEffect::BallLaunched => GameView {
                scene: SceneView::Level(self.scene->Level_0.launch()),
                ..held
            },
            KeyEffect::Restarted => GameView { scene: SceneView::Start, ..held },
        }
    }

    /// What a frame that begins now is to end with. A level without a block
    /// standing is cleared, whatever else holds; else the game ends if no
    /// ball is in reserve.
    pub open spec fn decide(self) -> Pending {
        match self.scene {
            SceneView::Level(level) => if level.cleared() {
                Pending::Advance
            } else if self.balls_left == 0 {
                Pending::Finish
            } else {
                Pending::Stay
            },
            _ => Pending::Stay,
        }
    }

    /// The game at the beginning of a frame: the decision is taken and kept.
    pub open spec fn begin_step(self) -> GameView {
        GameView { pending: self.decide(), ..self }
    }

    /// What a ball strikes on a flight with the given candidates; nothing
    /// outside a level.
    pub open spec fn contact(self, hits: Seq<Option<Hit>>, paddle: Option<Hit>) -> Option<
        Contact,
    > {
        match self.scene {
            SceneView::Level(level) => level.contact(hits, paddle),
            _ => None,
        }
    }

    /// The game after such a flight: a block that was struck is destroyed
    /// and paid for.
    pub open spec fn resolve(self, hits: Seq<Option<Hit>>, paddle: Option<Hit>) -> GameView {
        match self.scene {
            SceneView::Level(level) => {
                let contact = level.contact(hits, paddle);
                GameView {
                    score: if contact matches Some(Contact { obstacle: Obstacle::Block(_), .. }) {
                        self.score + POINTS_PER_BLOCK as nat
                    } else {
                        self.score
                    },
                    scene: SceneView::Level(level.after(contact)),
                    ..self
                }
            },
            _ => self,
        }
    }

    /// The balls in reserve after a frame that leaves `active_balls` balls
    /// in play: one fewer where the last ball was lost, but never fewer
    /// than none.
    pub open spec fn reserve_after(self, active_balls: nat) -> nat {
        match self.scene {
            SceneView::Level(level) => if level.ball_lost(active_balls) && self.balls_left > 0 {
                (self.balls_left - 1) as nat
            } else {
                self.balls_left
            },
            _ => self.balls_left,
        }
    }

    /// The game at the end of a frame that leaves `active_balls` balls in
    /// play. The lost ball is accounted for first; then the scene becomes
    /// what was decided when the frame began. A cleared level is followed
    /// by the next level, set up afresh, or by the closing scene where it
    /// was the last.
    pub open spec fn end_step(self, active_balls: nat) -> GameView {
        match self.scene {
            SceneView::Level(level) => {
                let settled = GameView {
                    balls_left: self.reserve_after(active_balls),
                    pending: Pending::Stay,
                    ..self
                };
                match self.pending {
                    Pending::Stay => GameView {
                        scene: SceneView::Level(level.settle(active_balls)),
                        ..settled
                    },
                    Pending::Advance => if self.current_level + 1 < self.levels.len() {
                        GameView {
                            current_level: self.current_level + 1 as nat,
                            scene: SceneView::Level(
                                LevelView::fresh(self.levels[self.current_level + 1 as int]),
                            ),
                            ..settled
                        }
                    } else {
                        GameView {
                            current_level: self.current_level + 1 as nat,
                            scene: SceneView::Finish,
                            ..settled
                        }
                    },
                    Pending::Finish => GameView { scene: SceneView::Finish, ..settled },
                }
            },
            _ => self,
        }
    }

    /// The game after a run of flights, each given by its candidates.
    pub open spec fn flights(self, flights: Seq<(Seq<Option<Hit>>, Option<Hit>)>) -> GameView
        decreases flights.len(),
    {
        if flights.len() == 0 {
            self
        } else {
            self.flights(flights.drop_last()).resolve(flights.last().0, flights.last().1)
        }
    }

    /// The game after a whole frame: begun, played through the given
    /// flights, and ended with `active_balls` balls in play.
    pub open spec fn frame(
        self,
        flights: Seq<(Seq<Option<Hit>>, Option<Hit>)>,
        active_balls: nat,
    ) -> GameView {
        self.begin_step().flights(flights).end_step(active_balls)
    }

    /// What the held direction keys add to the paddle's speed: a push to
    /// the left counts as negative.
    pub open spec fn paddle_push(self) -> int {
        (if self.right_held {
            PADDLE_PUSH as int
        } else {
            0
        }) - (if self.left_held {
            PADDLE_PUSH as int
        } else {
            0
        })
    }
}

/// The game.
#[derive(Debug)]
pub struct Game {
    score: u64,
    balls_left: u32,
    current_level: usize,
    levels: Vec<LevelLayout>,
    left_held: bool,
    right_held: bool,
    pending: Pending,
    scene: Scene,
}

impl View for Game {
    type V = GameView;

    closed spec fn view(&self) -> GameView {
        GameView {
            score: self.score as nat,
            balls_left: self.balls_left as nat,
            current_level: self.current_level as nat,
            levels: layouts_of(self.levels@),
            left_held: self.left_held,
            right_held: self.right_held,
            pending: self.pending,
            scene: self.scene@,
        }
    }
}

proof fn lemma_blocks_before_grows(levels: Seq<LayoutView>, a: int, b: int)
    requires
        0 <= a <= b,
    ensures
        0 <= blocks_before(levels, a) <= blocks_before(levels, b),
    decreases b,
{
    if a < b {
        lemma_blocks_before_grows(levels, a, b - 1);
    } else if 0 < a {
        lemma_blocks_before_grows(levels, a - 1, a - 1);
    }
}

impl Game {
    /// A game over the given levels, in its opening scene. There is none
    /// where there is no level, or where the blocks of all levels together
    /// are worth more than the score can hold.
    pub fn new(levels: Vec<LevelLayout>) -> (r: Option<Game>)
        requires
            forall|k: int| 0 <= k < levels@.len() ==> (#[trigger] levels@[k])@.wf(),
        ensures
            r is Some <==> GameView::playable(layouts_of(levels@)),
            r matches Some(game) ==> game@ == GameView::initial(layouts_of(levels@)) && game@.wf(),
    {
        let ghost views = layouts_of(levels@);
        if levels.len() == 0 {
            return None;
        }
        let limit: u64 = u64::MAX / POINTS_PER_BLOCK;
        let mut total: u64 = 0;
        let mut k: usize = 0;
        while k < levels.len()
            invariant
                k <= levels@.len(),
                views == layouts_of(levels@),
                limit == u64::MAX / POINTS_PER_BLOCK,
                total == blocks_before(views, k as int),
                total <= limit,
            decreases levels@.len() - k,
        {
            let count = levels[k].block_count() as u64;
            if count > limit - total {
                proof {
                    lemma_blocks_before_grows(views, k + 1, views.len() as int);
                }
                return None;
            }
            total = total + count;
            k = k + 1;
        }
        Some(
            Game {
                score: 0,
                balls_left: 0,
                current_level: 0,
                levels,
                left_held: false,
                right_held: false,
                pending: Pending::Stay,
                scene: Scene::Start,
            },
        )
    }

    /// The score.
    pub fn score(&self) -> (n: u64)
        ensures
            n == self@.score,
    {
        self.score
    }

    /// The balls in reserve.
    pub fn balls_left(&self) -> (n: u32)
        ensures
            n == self@.balls_left,
    {
        self.balls_left
    }

    /// The position of the level that is played, or was played last.
    pub fn current_level(&self) -> (n: usize)
        ensures
            n == self@.current_level,
    {
        self.current_level
    }

    /// The number of levels.
    pub fn level_count(&self) -> (n: usize)
        ensures
            n == self@.levels.len(),
    {
        self.levels.len()
    }

    /// Whether the left key is held.
    pub fn left_held(&self) -> (b: bool)
        ensures
            b == self@.left_held,
    {
        self.left_held
    }

    /// Whether the right key is held.
    pub fn right_held(&self) -> (b: bool)
        ensures
            b == self@.right_held,
    {
        self.right_held
    }

    /// What the frame in progress is to end with.
    pub fn pending(&self) -> (p: Pending)
        ensures
            p == self@.pending,
    {
        self.pending
    }

    /// The scene.
    pub fn scene(&self) -> (scene: &Scene)
        ensures
            scene@ == self@.scene,
    {
        &self.scene
    }

    /// The level in play, if the game is in one.
    pub fn level(&self) -> (level: Option<&LevelState>)
        ensures
            match level {
                Some(level) => self@.scene == SceneView::Level(level@),
                None => !(self@.scene is Level),
            },
    {
        match &self.scene {
            Scene::Level(level) => Some(level),
            _ => None,
        }
    }

    /// What the held direction keys add to the paddle's speed in a frame.
    pub fn paddle_push(&self) -> (push: i32)
        ensures
            push == self@.paddle_push(),
    {
        let right: i32 = if self.right_held {
            PADDLE_PUSH
        } else {
            0
        };
        let left: i32 = if self.left_held {
            PADDLE_PUSH
        } else {
            0
        };
        right - left
    }

    /// A key went down (`pressed`) or came up.
    pub fn on_key(&mut self, key: Key, pressed: bool) -> (effect: KeyEffect)
        requires
            old(self)@.wf(),
        ensures
            effect == old(self)@.key_effect(key, pressed),
            final(self)@ == old(self)@.on_key(key, pressed),
            final(self)@.wf(),
    {
        match key {
            Key::Left => {
                self.left_held = pressed;
            },
            Key::Right => {
                self.right_held = pressed;
            },
            _ => {},
        }
        match &mut self.scene {
            Scene::Start => {
                if pressed {
                    let level = LevelState::new(&self.levels[0]);
                    self.score = 0;
                    self.balls_left = INITIAL_BALLS;
                    self.current_level = 0;
                    self.pending = Pending::Stay;
                    self.scene = Scene::Level(level);
                    KeyEffect::LevelEntered
                } else {
                    KeyEffect::Nothing
                }
            },
            Scene::Level(level) => {
                match key {
                    Key::Launch => {
                        if pressed && level.launch() {
                            KeyEffect::BallLaunched
                        } else {
                            KeyEffect::Nothing
                        }
                    },
                    _ => KeyEffect::Nothing,
                }
            },
            Scene::Finish => {
                if pressed {
                    self.scene = Scene::Start;
                    KeyEffect::Restarted
                } else {
                    KeyEffect::Nothing
                }
            },
        }
    }

    /// A button of the pointing device went down or came up. The game takes
    /// no notice.
    pub fn on_mouse_button(&mut self, button: MouseButton, pressed: bool)
        ensures
            final(self)@ == old(self)@,
    {
    }

    /// The pointer moved to the given place on the drawing surface. The game
    /// takes no notice.
    pub fn on_mouse_motion(&mut self, x: i32, y: i32)
        ensures
            final(self)@ == old(self)@,
    {
    }

    /// The drawing surface changed its size. The game takes no notice.
    pub fn on_viewport_change(&mut self, w: u32, h: u32)
        ensures
            final(self)@ == old(self)@,
    {
    }

    /// Begins a frame: decides what it is to end with.
    pub fn begin_step(&mut self) -> (pending: Pending)
        requires
            old(self)@.wf(),
        ensures
            pending == old(self)@.decide(),
            final(self)@ == old(self)@.begin_step(),
            final(self)@.wf(),
    {
        let pending = match &self.scene {
            Scene::Level(level) => {
                if level.is_cleared() {
                    Pending::Advance
                } else if self.balls_left == 0 {
                    Pending::Finish
                } else {
                    Pending::Stay
                }
            },
            _ => Pending::Stay,
        };
        self.pending = pending;
        pending
    }

    /// Decides what a ball strikes on one flight, destroys the block that
    /// was struck and adds its points to the score. `blocks` holds one
    /// candidate for each block still standing, in their order; `left`,
    /// `right` and `top` are the candidates of the walls, `paddle` that of
    /// the paddle. Outside a level there is no contact.
    pub fn resolve(
        &mut self,
        blocks: &[Option<Hit>],
        left: Option<Hit>,
        right: Option<Hit>,
        top: Option<Hit>,
        paddle: Option<Hit>,
    ) -> (r: Option<Contact>)
        requires
            old(self)@.wf(),
            old(self)@.scene matches SceneView::Level(level) ==> blocks@.len() == level.alive,
        ensures
            r == old(self)@.contact(obstacle_hits(blocks@, left, right, top), paddle),
            final(self)@ == old(self)@.resolve(obstacle_hits(blocks@, left, right, top), paddle),
            final(self)@.wf(),
    {
        let r = match &mut self.scene {
            Scene::Level(level) => level.resolve(blocks, left, right, top, paddle),
            _ => None,
        };
        if let Some(Contact { obstacle: Obstacle::Block(_), .. }) = r {
            proof {
                let views = layouts_of(self.levels@);
                lemma_blocks_before_grows(views, self.current_level + 1, views.len() as int);
                assert(blocks_before(views, self.current_level + 1) == blocks_before(
                    views,
                    self.current_level as int,
                ) + views[self.current_level as int].blocks.len());
            }
            self.score = self.score + POINTS_PER_BLOCK;
        }
        r
    }

    /// Ends a frame that leaves `active_balls` balls in play. Returns what
    /// the frame ended with.
    pub fn end_step(&mut self, active_balls: usize) -> (applied: Pending)
        requires
            old(self)@.wf(),
        ensures
            applied == (if old(self)@.scene is Level {
                old(self)@.pending
            } else {
                Pending::Stay
            }),
            final(self)@ == old(self)@.end_step(active_balls as nat),
            final(self)@.wf(),
    {
        let lost = match &mut self.scene {
            Scene::Level(level) => level.settle(active_balls),
            _ => {
                return Pending::Stay;
            },
        };
        let count = self.levels.len();
        if lost && self.balls_left > 0 {
            self.balls_left = self.balls_left - 1;
        }
        let applied = self.pending;
        self.pending = Pending::Stay;
        match applied {
            Pending::Stay => {},
            Pending::Advance => {
                self.current_level = self.current_level + 1;
                if self.current_level < count {
                    assert(self.levels@[self.current_level as int]@ == layouts_of(
                        self.levels@,
                    )[self.current_level as int]);
                    self.scene = Scene::Level(LevelState::new(&self.levels[self.current_level]));
                } else {
                    self.scene = Scene::Finish;
                }
            },
            Pending::Finish => {
                self.scene = Scene::Finish;
            },
        }
        applied
    }
}

/// A level is to be left as cleared exactly when no block stands as the
/// frame begins. Neither the balls in play nor the balls in reserve have a
/// say.
pub proof fn law_cleared_iff_no_block_stands(game: GameView)
    ensures
        game.decide() == Pending::Advance <==> (game.scene matches SceneView::Level(level)
            && level.alive == 0),
{
}

/// Whatever happens in a level keeps the game well formed: a key, the
/// beginning of a frame, a flight, the end of a frame.
pub proof fn law_well_formed_throughout(
    game: GameView,
    key: Key,
    pressed: bool,
    hits: Seq<Option<Hit>>,
    paddle: Option<Hit>,
    active_balls: nat,
)
    requires
        game.wf(),
    ensures
        game.on_key(key, pressed).wf(),
        game.begin_step().wf(),
        game.resolve(hits, paddle).wf(),
        game.end_step(active_balls).wf(),
{
    lemma_resolve(game, hits, paddle);
    lemma_enter(game, 0);
    lemma_score_fits(game);
    if game.scene is Level && game.current_level + 1 < game.levels.len() {
        lemma_enter(game, game.current_level as int + 1);
    }
}

/// The score never outgrows its type.
proof fn lemma_score_fits(game: GameView)
    requires
        game.wf(),
    ensures
        game.score <= u64::MAX,
{
    if game.scene is Level {
        lemma_blocks_before_grows(
            game.levels,
            game.current_level as int + 1,
            game.levels.len() as int,
        );
    }
}

/// The level at position `k` begins well formed, and the blocks of the
/// levels before it are counted up to it.
proof fn lemma_enter(game: GameView, k: int)
    requires
        game.wf(),
        0 <= k < game.levels.len(),
    ensures
        LevelView::fresh(game.levels[k]).wf(),
        LevelView::fresh(game.levels[k]).alive == game.levels[k].blocks.len(),
        LevelView::fresh(game.levels[k]).blocks.len() == game.levels[k].blocks.len(),
        blocks_before(game.levels, 0) == 0,
        k > 0 ==> blocks_before(game.levels, k) == blocks_before(game.levels, k - 1)
            + game.levels[k - 1].blocks.len(),
{
    law_fresh_level(game.levels[k]);
}

/// A flight keeps the game in its level, leaves the decision of the frame,
/// the balls in reserve and the place among the levels alone, and never
/// raises the number of blocks standing.
proof fn lemma_resolve(game: GameView, hits: Seq<Option<Hit>>, paddle: Option<Hit>)
    requires
        game.wf(),
    ensures
        game.resolve(hits, paddle).wf(),
        game.resolve(hits, paddle).pending == game.pending,
        game.resolve(hits, paddle).current_level == game.current_level,
        game.resolve(hits, paddle).balls_left == game.balls_left,
        game.resolve(hits, paddle).levels == game.levels,
        game.resolve(hits, paddle).scene is Level <==> game.scene is Level,
        game.scene matches SceneView::Level(level) ==> game.resolve(
            hits,
            paddle,
        ).scene->Level_0.alive <= level.alive,
{
    if let SceneView::Level(level) = game.scene {
        law_alive_never_grows(level, hits, paddle, 0);
        if let Some(Contact { obstacle: Obstacle::Block(i), .. }) = level.contact(hits, paddle) {
            lemma_earliest_exists(hits);
            law_destroyed_block_is_retired(level, i as int);
            lemma_blocks_before_grows(
                game.levels,
                game.current_level as int + 1,
                game.levels.len() as int,
            );
        }
    }
}

proof fn lemma_flights(game: GameView, flights: Seq<(Seq<Option<Hit>>, Option<Hit>)>)
    requires
        game.wf(),
    ensures
        game.flights(flights).wf(),
        game.flights(flights).pending == game.pending,
        game.flights(flights).current_level == game.current_level,
        game.flights(flights).balls_left == game.balls_left,
        game.flights(flights).levels == game.levels,
        game.flights(flights).scene is Level <==> game.scene is Level,
        game.scene matches SceneView::Level(level) ==> game.flights(flights).scene->Level_0.alive
            <= level.alive,
    decreases flights.len(),
{
    if flights.len() > 0 {
        lemma_flights(game, flights.drop_last());
        lemma_resolve(game.flights(flights.drop_last()), flights.last().0, flights.last().1);
    }
}

/// A frame leaves its level for the next one, or for the closing scene
/// after the last, exactly when no block stood as the frame began:
/// whatever the flights of the frame destroy, and however many balls are in
/// play or in reserve. The level that follows is set up afresh.
pub proof fn law_level_left_iff_cleared(
    game: GameView,
    flights: Seq<(Seq<Option<Hit>>, Option<Hit>)>,
    active_balls: nat,
)
    requires
        game.wf(),
        game.scene is Level,
    ensures
        game.frame(flights, active_balls).wf(),
        game.scene->Level_0.alive == 0 <==> game.frame(flights, active_balls).current_level
            == game.current_level as int + 1,
        game.scene->Level_0.alive != 0 ==> game.frame(flights, active_balls).current_level
            == game.current_level,
        game.scene->Level_0.alive == 0 ==> game.frame(flights, active_balls).scene == (if
            game.current_level as int + 1 < game.levels.len() {
            SceneView::Level(LevelView::fresh(game.levels[game.current_level as int + 1]))
        } else {
            SceneView::Finish
        }),
        game.scene->Level_0.alive != 0 && game.balls_left == 0 ==> game.frame(
            flights,
            active_balls,
        ).scene is Finish,
        game.scene->Level_0.alive != 0 && game.balls_left != 0 ==> game.frame(
            flights,
            active_balls,
        ).scene is Level,
{
    let begun = game.begin_step();
    lemma_flights(begun, flights);
    lemma_score_fits(begun.flights(flights));
    if game.current_level + 1 < game.levels.len() {
        lemma_enter(begun.flights(flights), game.current_level as int + 1);
    }
}

/// Within a frame the number of blocks standing never rises, and the score
/// rises by the worth of the blocks that fell.
pub proof fn law_score_pays_for_blocks(
    game: GameView,
    flights: Seq<(Seq<Option<Hit>>, Option<Hit>)>,
)
    requires
        game.wf(),
        game.scene is Level,
    ensures
        game.flights(flights).scene is Level,
        game.flights(flights).scene->Level_0.alive <= game.scene->Level_0.alive,
        game.flights(flights).score == game.score + POINTS_PER_BLOCK * (game.scene->Level_0.alive
            - game.flights(flights).scene->Level_0.alive),
{
    lemma_flights(game, flights);
}

/// A frame that leaves no ball in play after one was launched settles the
/// loss in that very frame: a ball is taken from the reserve, while there
/// is one, and where the level goes on, the next ball waits on the paddle.
/// A frame that leaves a ball in play, or in which none was launched, takes
/// nothing.
pub proof fn law_lost_ball_is_settled_at_once(game: GameView, active_balls: nat)
    requires
        game.wf(),
        game.scene is Level,
    ensures
        active_balls == 0 && !game.scene->Level_0.launching ==> game.end_step(
            active_balls,
        ).balls_left == (if game.balls_left > 0 {
            game.balls_left - 1
        } else {
            0
        }),
        active_balls == 0 && game.pending == Pending::Stay ==> (game.end_step(
            active_balls,
        ).scene matches SceneView::Level(level) && level.launching),
        active_balls > 0 || game.scene->Level_0.launching ==> game.end_step(
            active_balls,
        ).balls_left == game.balls_left,
{
}

/// A game begins with `INITIAL_BALLS` balls in reserve. From then on the
/// reserve never grows, and only the end of a frame takes a ball from it,
/// one at most.
pub proof fn law_reserve_never_grows(
    game: GameView,
    key: Key,
    pressed: bool,
    hits: Seq<Option<Hit>>,
    paddle: Option<Hit>,
    active_balls: nat,
)
    requires
        game.wf(),
    ensures
        game.on_key(key, pressed).balls_left == (if game.key_effect(key, pressed)
            == KeyEffect::LevelEntered {
            INITIAL_BALLS as nat
        } else {
            game.balls_left
        }),
        game.begin_step().balls_left == game.balls_left,
        game.resolve(hits, paddle).balls_left == game.balls_left,
        game.balls_left - 1 <= game.end_step(active_balls).balls_left <= game.balls_left,
{
}

} // verus!
