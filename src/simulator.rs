use vstd::prelude::*;
use crate::block::Block;

verus! {

/// Why a simulator could not be built.
#[derive(Clone, Copy, Debug, PartialEq, Eq)]
pub enum SimError {
    /// A block's mass is zero or above `MAX_MASS`, a velocity is `i64::MIN`,
    /// or the number of sub-steps is zero.
    InvalidParameter,
}

/// The mathematical state of a simulator.
pub struct SimState {
    pub small: Block,
    pub large: Block,
    pub wall_pos: int,
    pub collision_count: int,
    pub iterations: nat,
    pub large_hits_wall: bool,
}

impl SimState {
    pub open spec fn wf(self) -> bool {
        self.small.wf() && self.large.wf() && self.iterations > 0
    }

    /// Distance from the small block's right edge to the large block's
    /// left edge; negative when they overlap.
    pub open spec fn gap(self) -> int {
        self.large.pos - self.small.right_edge()
    }

    pub open spec fn blocks_collide(self) -> bool {
        self.gap() < 0
    }

    /// Small block after the block-block stage of a sub-step.
    pub open spec fn small_after_bounce(self) -> Block {
        if self.blocks_collide() {
            self.small.with_vel(self.small.bounced_vel(self.large))
        } else {
            self.small
        }
    }

    /// Large block after the block-block stage of a sub-step.
    pub open spec fn large_after_bounce(self) -> Block {
        if self.blocks_collide() {
            self.large.with_vel(self.large.bounced_vel(self.small))
        } else {
            self.large
        }
    }

    pub open spec fn small_hits_wall(self) -> bool {
        self.small.pos <= self.wall_pos
    }

    pub open spec fn large_hits_wall_now(self) -> bool {
        self.large_hits_wall && self.large.pos <= self.wall_pos
    }

    /// Number of collisions one sub-step registers.
    pub open spec fn step_events(self) -> int {
        (if self.blocks_collide() { 1int } else { 0int }) + (if self.small_hits_wall() {
            1int
        } else {
            0int
        }) + (if self.large_hits_wall_now() { 1int } else { 0int })
    }

    /// One sub-step of `dt` time units: block-block collision, then the wall,
    /// then motion.
    pub open spec fn step(self, dt: int) -> SimState {
        let small = self.small_after_bounce().reflected(self.wall_pos).moved(dt);
        let large = if self.large_hits_wall {
            self.large_after_bounce().reflected(self.wall_pos).moved(dt)
        } else {
            self.large_after_bounce().moved(dt)
        };
        SimState {
            small,
            large,
            wall_pos: self.wall_pos,
            collision_count: self.collision_count + self.step_events(),
            iterations: self.iterations,
            large_hits_wall: self.large_hits_wall,
        }
    }

    /// `n` sub-steps of `dt` time units each.
    pub open spec fn run(self, dt: int, n: nat) -> SimState
        decreases n,
    {
        if n == 0 {
            self
        } else {
            self.step(dt).run(dt, (n - 1) as nat)
        }
    }
}

/// A sub-step keeps the state well formed and registers at most three
/// collisions.
pub proof fn lemma_step_wf(s: SimState, dt: int)
    requires
        s.wf(),
    ensures
        s.step(dt).wf(),
        0 <= s.step_events() <= 3,
        s.step(dt).collision_count == s.collision_count + s.step_events(),
        s.step(dt).wall_pos == s.wall_pos,
        s.step(dt).iterations == s.iterations,
        s.step(dt).large_hits_wall == s.large_hits_wall,
{
}

/// Running sub-steps keeps the state well formed, leaves the configuration
/// alone, and adds at most three collisions per sub-step.
pub proof fn lemma_run_wf(s: SimState, dt: int, n: nat)
    requires
        s.wf(),
    ensures
        s.run(dt, n).wf(),
        s.collision_count <= s.run(dt, n).collision_count <= s.collision_count + 3 * n,
        s.run(dt, n).wall_pos == s.wall_pos,
        s.run(dt, n).iterations == s.iterations,
        s.run(dt, n).large_hits_wall == s.large_hits_wall,
    decreases n,
{
    if n > 0 {
        lemma_step_wf(s, dt);
        lemma_run_wf(s.step(dt), dt, (n - 1) as nat);
    }
}

/// The collision count never decreases, across any two runs one after the
/// other, whatever their step sizes and lengths.
pub proof fn lemma_count_monotonic(s: SimState, dt1: int, n1: nat, dt2: int, n2: nat)
    requires
        s.wf(),
    ensures
        s.collision_count <= s.run(dt1, n1).collision_count,
        s.run(dt1, n1).collision_count <= s.run(dt1, n1).run(dt2, n2).collision_count,
{
    lemma_run_wf(s, dt1, n1);
    lemma_run_wf(s.run(dt1, n1), dt2, n2);
}

/// Two blocks, a wall on the small block's side, and the collision count.
pub struct Simulator {
    small_block: Block,
    large_block: Block,
    wall_pos: i64,
    collision_count: u64,
    iterations: u64,
    large_hits_wall: bool,
}

impl View for Simulator {
    type V = SimState;

    closed spec fn view(&self) -> SimState {
        SimState {
            small: self.small_block,
            large: self.large_block,
            wall_pos: self.wall_pos as int,
            collision_count: self.collision_count as int,
            iterations: self.iterations as nat,
            large_hits_wall: self.large_hits_wall,
        }
    }
}

impl Simulator {
    /// Builds a simulator with a zero count. `iterations` is the number of
    /// sub-steps per call of `advance`; `large_hits_wall` says whether the
    /// large block reflects off the wall too.
    pub fn new(small: Block, large: Block, wall_pos: i64, iterations: u64, large_hits_wall: bool)
        -> (r: Result<Simulator, SimError>)
        ensures
            r is Err <==> !(small.wf() && large.wf() && iterations > 0),
            r is Err ==> r == Err::<Simulator, SimError>(SimError::InvalidParameter),
            r matches Ok(sim) ==> sim@ == (SimState {
                small,
                large,
                wall_pos: wall_pos as int,
                collision_count: 0,
                iterations: iterations as nat,
                large_hits_wall,
            }),
            r matches Ok(sim) ==> sim@.wf(),
    {
        if !small.is_valid() || !large.is_valid() || iterations == 0 {
            return Err(SimError::InvalidParameter);
        }
        Ok(Simulator {
            small_block: small,
            large_block: large,
            wall_pos,
            collision_count: 0,
            iterations,
            large_hits_wall,
        })
    }

    fn was_collision(&mut self)
        requires
            old(self).collision_count < u64::MAX,
        ensures
            final(self)@ == (SimState { collision_count: old(self)@.collision_count + 1, ..old(self)@ }),
    {
        self.collision_count = self.collision_count + 1;
    }

    /// One sub-step of `dt` time units.
    pub fn step(&mut self, dt: u64)
        requires
            old(self)@.wf(),
            old(self)@.collision_count + 3 <= u64::MAX,
        ensures
            final(self)@ == old(self)@.step(dt as int),
            final(self)@.collision_count == old(self)@.collision_count + old(self)@.step_events(),
            final(self)@.wf(),
    {
        proof {
            lemma_step_wf(self@, dt as int);
        }
        let dist: i128 = self.large_block.pos as i128 - (self.small_block.pos as i128
            + self.small_block.size as i128);
        if dist < 0 {
            let v1 = self.small_block.bounce(&self.large_block);
            let v2 = self.large_block.bounce(&self.small_block);
            self.small_block.vel = v1;
            self.large_block.vel = v2;
            self.was_collision();
        }
        if self.small_block.hit_wall(self.wall_pos) {
            self.was_collision();
        }
        if self.large_hits_wall {
            if self.large_block.hit_wall(self.wall_pos) {
                self.was_collision();
            }
        }
        self.small_block.update_pos(dt);
        self.large_block.update_pos(dt);
    }

    /// Runs `iterations` sub-steps of `frame_dt / iterations` time units.
    pub fn advance(&mut self, frame_dt: u64)
        requires
            old(self)@.wf(),
            old(self)@.collision_count + 3 * old(self)@.iterations <= u64::MAX,
        ensures
            final(self)@ == old(self)@.run(frame_dt as int / old(self)@.iterations as int, old(self)@.iterations),
            final(self)@.wf(),
            old(self)@.collision_count <= final(self)@.collision_count,
            final(self)@.collision_count <= old(self)@.collision_count + 3 * old(self)@.iterations,
    {
        let dt = frame_dt / self.iterations;
        let n = self.iterations;
        let ghost s0 = self@;
        let mut i: u64 = 0;
        while i < n
            invariant
                s0.wf(),
                0 <= i <= n,
                n == s0.iterations,
                dt == frame_dt / n,
                s0.collision_count + 3 * n <= u64::MAX,
                self@ == s0.run(dt as int, i as nat),
            decreases n - i,
        {
            proof {
                lemma_run_wf(s0, dt as int, i as nat);
                lemma_run_split(s0, dt as int, i as nat);
            }
            self.step(dt);
            i = i + 1;
        }
        proof {
            lemma_run_wf(s0, dt as int, n as nat);
        }
    }

    pub fn small_block(&self) -> (r: Block)
        ensures
            r == self@.small,
    {
        self.small_block
    }

    pub fn large_block(&self) -> (r: Block)
        ensures
            r == self@.large,
    {
        self.large_block
    }

    pub fn collision_count(&self) -> (r: u64)
        ensures
            r == self@.collision_count,
    {
        self.collision_count
    }

    pub fn wall_pos(&self) -> (r: i64)
        ensures
            r == self@.wall_pos,
    {
        self.wall_pos
    }

    pub fn iterations(&self) -> (r: u64)
        ensures
            r == self@.iterations,
    {
        self.iterations
    }
}

/// One more sub-step after `n` of them is the run of `n + 1`.
proof fn lemma_run_split(s: SimState, dt: int, n: nat)
    ensures
        s.run(dt, n).step(dt) == s.run(dt, n + 1),
    decreases n,
{
    assert(s.run(dt, n + 1) == s.step(dt).run(dt, n));
    if n > 0 {
        lemma_run_split(s.step(dt), dt, (n - 1) as nat);
        assert(s.run(dt, n) == s.step(dt).run(dt, (n - 1) as nat));
        assert((n - 1) as nat + 1 == n);
    } else {
        assert(s.step(dt).run(dt, 0) == s.step(dt));
    }
}

} // verus!
