//! The demonstration workload: a small request-processing application
//! whose memory and CPU behaviour follow recognizable patterns, used to
//! exercise the profiler end to end. Memory pools ramp, flush, step and
//! cycle through call depths; CPU loads burn work in distinctive shapes.
//! All timing arrives as elapsed milliseconds, so every decision here is a
//! pure function of its inputs.

use vstd::prelude::*;

use crate::strutil::{spec_dec_digits, spec_hex_digits, u64_to_dec, u64_to_hex};

verus! {

/// The routes a synthetic request can take.
#[derive(Clone, Copy, PartialEq, Eq, Structural)]
pub enum Route {
    /// The search path.
    Search,
    /// The checkout path.
    Checkout,
    /// The analytics path.
    Analytics,
    /// The health check.
    Health,
}

/// One synthetic request.
pub struct Request {
    /// The request's sequence number.
    pub id: u64,
    /// The synthetic user.
    pub user_id: u64,
    /// The synthetic session.
    pub session_id: u64,
    /// The cache key.
    pub key: String,
    /// The payload bytes.
    pub payload: Vec<u8>,
    /// The route taken.
    pub route: Route,
    /// Promotion flags.
    pub flags: u8,
}

/// One synthetic response.
pub struct Response {
    /// The status code.
    pub status: u16,
    /// The body bytes.
    pub body: Vec<u8>,
    /// Whether the body may be cached.
    pub cacheable: bool,
}

/// Counters of the synthetic application.
pub struct Stats {
    /// Requests processed.
    pub requests: u64,
    /// Requests answered from the cache.
    pub cache_hits: u64,
    /// Requests that missed the cache.
    pub cache_misses: u64,
    /// Requests rejected by validation.
    pub errors: u64,
}

/// A vector of `n` copies of one byte.
pub fn filled_bytes(b: u8, n: usize) -> (r: Vec<u8>)
    ensures
        r@.len() == n,
        forall|i: int| 0 <= i < n ==> r@[i] == b,
{
    let mut r: Vec<u8> = Vec::new();
    let mut i: usize = 0;
    while i < n
        invariant
            i <= n,
            r@.len() == i,
            forall|j: int| 0 <= j < i ==> r@[j] == b,
        decreases n - i,
    {
        r.push(b);
        i += 1;
    }
    r
}

/// One scrambling round: multiply, add, and fold the high bits back in.
pub open spec fn spec_scramble_round(v: u64, mul: u64, add: u64, shr: u64) -> u64 {
    let w = vstd::wrapping::u64_specs::wrapping_add(
        vstd::wrapping::u64_specs::wrapping_mul(v, mul),
        add,
    );
    w ^ (w >> shr)
}

/// The value after `n` scrambling rounds.
pub open spec fn spec_scramble(v: u64, mul: u64, add: u64, shr: u64, n: int) -> u64
    decreases n,
{
    if n <= 0 {
        v
    } else {
        spec_scramble_round(spec_scramble(v, mul, add, shr, n - 1), mul, add, shr)
    }
}

/// Scramble a value for `rounds` rounds.
pub fn scramble(v: u64, mul: u64, add: u64, shr: u64, rounds: usize) -> (r: u64)
    requires
        shr < 64,
    ensures
        r == spec_scramble(v, mul, add, shr, rounds as int),
{
    let mut x = v;
    let mut i: usize = 0;
    while i < rounds
        invariant
            i <= rounds,
            x == spec_scramble(v, mul, add, shr, i as int),
            shr < 64,
        decreases rounds - i,
    {
        let w = x.wrapping_mul(mul).wrapping_add(add);
        x = w ^ (w >> shr);
        i += 1;
    }
    x
}

/// The sum of scrambles of `0 .. n`, wrapping.
pub open spec fn spec_work_sum(n: int, mul: u64, add: u64, shr: u64, rounds: int) -> u64
    decreases n,
{
    if n <= 0 {
        0u64
    } else {
        vstd::wrapping::u64_specs::wrapping_add(
            spec_work_sum(n - 1, mul, add, shr, rounds),
            spec_scramble((n - 1) as u64, mul, add, shr, rounds),
        )
    }
}

/// Burn CPU: sum the scrambles of `0 .. n`.
pub fn work_sum(n: u32, mul: u64, add: u64, shr: u64, rounds: usize) -> (r: u64)
    requires
        shr < 64,
    ensures
        r == spec_work_sum(n as int, mul, add, shr, rounds as int),
{
    let mut sum: u64 = 0;
    let mut i: u32 = 0;
    while i < n
        invariant
            i <= n,
            shr < 64,
            sum == spec_work_sum(i as int, mul, add, shr, rounds as int),
        decreases n - i,
    {
        sum = sum.wrapping_add(scramble(i as u64, mul, add, shr, rounds));
        i += 1;
    }
    sum
}

/// A CPU load that steps between a light and a heavy burn every five
/// seconds of elapsed time.
pub struct StepCpuLoad {
}

impl StepCpuLoad {
    /// A fresh step load.
    pub fn new() -> (r: StepCpuLoad) {
        StepCpuLoad {  }
    }

    /// Burn one tick's work: light on even five-second steps, heavy on
    /// odd ones.
    pub fn tick(&self, elapsed_ms: u64) -> (r: u64)
        ensures
            (elapsed_ms / 5000) % 2 == 0 ==> r == spec_work_sum(500, 6364136223846793005, 1, 33, 100),
            (elapsed_ms / 5000) % 2 != 0 ==> r == spec_work_sum(5000, 6364136223846793005, 1, 33, 100),
    {
        let step = elapsed_ms / 5000;
        if step % 2 == 0 {
            self.do_low_work()
        } else {
            self.do_high_work()
        }
    }

    /// The light burn.
    fn do_low_work(&self) -> (r: u64)
        ensures
            r == spec_work_sum(500, 6364136223846793005, 1, 33, 100),
    {
        work_sum(500, 6364136223846793005, 1, 33, 100)
    }

    /// The heavy burn.
    fn do_high_work(&self) -> (r: u64)
        ensures
            r == spec_work_sum(5000, 6364136223846793005, 1, 33, 100),
    {
        work_sum(5000, 6364136223846793005, 1, 33, 100)
    }
}

/// A CPU load that ramps up over each six-second period and drops.
pub struct SawtoothCpuLoad {
}

impl SawtoothCpuLoad {
    /// A fresh sawtooth load.
    pub fn new() -> (r: SawtoothCpuLoad) {
        SawtoothCpuLoad {  }
    }

    /// Burn one tick's work, proportional to the position in the period:
    /// from one hundred up to near ten thousand scramble sums.
    pub fn tick(&self, elapsed_ms: u64) -> (r: u64)
        ensures
            r == spec_work_sum(
                100 + (((elapsed_ms % 6000) * 9900 / 6000) as int),
                2862933555777941757,
                3037000493,
                21,
                50,
            ),
    {
        let phase = elapsed_ms % 6000;
        let iterations: u64 = 100 + phase * 9900 / 6000;
        work_sum(iterations as u32, 2862933555777941757, 3037000493, 21, 50)
    }
}

/// A CPU load that alternates a small and a large burn every two seconds.
pub struct SquareCpuLoad {
}

impl SquareCpuLoad {
    /// A fresh square-wave load.
    pub fn new() -> (r: SquareCpuLoad) {
        SquareCpuLoad {  }
    }

    /// Burn one tick's work: small in the first half of each four-second
    /// period, large in the second.
    pub fn tick(&self, elapsed_ms: u64) -> (r: u64)
        ensures
            elapsed_ms % 4000 < 2000 ==> r == spec_work_sum(200, 3935559000370003845, 1442695040888963407, 27, 80),
            elapsed_ms % 4000 >= 2000 ==> r == spec_work_sum(8000, 3935559000370003845, 1442695040888963407, 27, 80),
    {
        let phase = elapsed_ms % 4000;
        if phase < 2000 {
            self.do_square_low()
        } else {
            self.do_square_high()
        }
    }

    /// The small burn.
    fn do_square_low(&self) -> (r: u64)
        ensures
            r == spec_work_sum(200, 3935559000370003845, 1442695040888963407, 27, 80),
    {
        work_sum(200, 3935559000370003845, 1442695040888963407, 27, 80)
    }

    /// The large burn.
    fn do_square_high(&self) -> (r: u64)
        ensures
            r == spec_work_sum(8000, 3935559000370003845, 1442695040888963407, 27, 80),
    {
        work_sum(8000, 3935559000370003845, 1442695040888963407, 27, 80)
    }
}

/// A CPU load that performs the same burn through one of four call depths,
/// cycling every eight seconds, so stacks of different shapes appear.
pub struct DepthCpuLoad {
}

impl DepthCpuLoad {
    /// A fresh depth-cycling load.
    pub fn new() -> (r: DepthCpuLoad) {
        DepthCpuLoad {  }
    }

    /// Burn one tick's work at the period's call depth.
    pub fn tick(&self, elapsed_ms: u64) -> (r: u64)
        ensures
            r == spec_work_sum(3000, 1442695040888963407, 7046029254386353087, 29, 60),
    {
        let depth = ((elapsed_ms % 8000) / 2000) % 4;
        if depth == 0 {
            self.depth_1_work()
        } else if depth == 1 {
            self.depth_2_work()
        } else if depth == 2 {
            self.depth_3_work()
        } else {
            self.depth_4_work()
        }
    }

    /// Depth one: burn directly.
    fn depth_1_work(&self) -> (r: u64)
        ensures
            r == spec_work_sum(3000, 1442695040888963407, 7046029254386353087, 29, 60),
    {
        self.do_depth_compute(3000)
    }

    /// Depth two: one level of indirection.
    fn depth_2_work(&self) -> (r: u64)
        ensures
            r == spec_work_sum(3000, 1442695040888963407, 7046029254386353087, 29, 60),
    {
        self.depth_2_inner()
    }

    /// The inner frame of depth two.
    fn depth_2_inner(&self) -> (r: u64)
        ensures
            r == spec_work_sum(3000, 1442695040888963407, 7046029254386353087, 29, 60),
    {
        self.do_depth_compute(3000)
    }

    /// Depth three: two levels of indirection.
    fn depth_3_work(&self) -> (r: u64)
        ensures
            r == spec_work_sum(3000, 1442695040888963407, 7046029254386353087, 29, 60),
    {
        self.depth_3_a()
    }

    /// The middle frame of depth three.
    fn depth_3_a(&self) -> (r: u64)
        ensures
            r == spec_work_sum(3000, 1442695040888963407, 7046029254386353087, 29, 60),
    {
        self.depth_3_b()
    }

    /// The inner frame of depth three.
    fn depth_3_b(&self) -> (r: u64)
        ensures
            r == spec_work_sum(3000, 1442695040888963407, 7046029254386353087, 29, 60),
    {
        self.do_depth_compute(3000)
    }

    /// Depth four: three levels of indirection.
    fn depth_4_work(&self) -> (r: u64)
        ensures
            r == spec_work_sum(3000, 1442695040888963407, 7046029254386353087, 29, 60),
    {
        self.depth_4_a()
    }

    /// The outer frame of depth four.
    fn depth_4_a(&self) -> (r: u64)
        ensures
            r == spec_work_sum(3000, 1442695040888963407, 7046029254386353087, 29, 60),
    {
        self.depth_4_b()
    }

    /// The middle frame of depth four.
    fn depth_4_b(&self) -> (r: u64)
        ensures
            r == spec_work_sum(3000, 1442695040888963407, 7046029254386353087, 29, 60),
    {
        self.depth_4_c()
    }

    /// The inner frame of depth four.
    fn depth_4_c(&self) -> (r: u64)
        ensures
            r == spec_work_sum(3000, 1442695040888963407, 7046029254386353087, 29, 60),
    {
        self.do_depth_compute(3000)
    }

    /// The burn all depths share.
    fn do_depth_compute(&self, iterations: u32) -> (r: u64)
        ensures
            r == spec_work_sum(iterations as int, 1442695040888963407, 7046029254386353087, 29, 60),
    {
        work_sum(iterations, 1442695040888963407, 7046029254386353087, 29, 60)
    }
}

/// Ten-megabyte chunks for the periodic-flush pool.
pub const POOL_CHUNK_SIZE: usize = 10485760;

/// The periodic-flush pool's high-water mark.
pub const POOL_MAX_SIZE: usize = 104857600;

/// Milliseconds between the periodic-flush pool's allocations.
pub const POOL_ALLOC_INTERVAL_MS: u64 = 5000;

/// A pool that grows by ten megabytes every five seconds and flushes to
/// zero at one hundred megabytes, drawing a repeating ramp.
pub struct BufferPool {
    /// The held chunks.
    pub buffers: Vec<Vec<u8>>,
    /// When the pool last allocated, if it ever has.
    pub last_alloc_ms: Option<u64>,
    /// Bytes currently held.
    pub total_bytes: usize,
}

impl BufferPool {
    /// The byte count matches the held chunks.
    pub open spec fn wf(self) -> bool {
        self.total_bytes == self.buffers@.len() * POOL_CHUNK_SIZE
    }

    /// An empty pool that allocates on its first tick.
    pub fn new() -> (r: BufferPool)
        ensures
            r.wf(),
            r.buffers@.len() == 0,
            r.total_bytes == 0,
            r.last_alloc_ms is None,
    {
        BufferPool { buffers: Vec::new(), last_alloc_ms: None, total_bytes: 0 }
    }

    /// One tick at the given elapsed time: allocate a chunk when the
    /// interval has passed (or on the first tick), and flush everything
    /// once the high-water mark is reached.
    pub fn tick(&mut self, now_ms: u64)
        requires
            old(self).wf(),
            old(self).total_bytes < POOL_MAX_SIZE,
        ensures
            final(self).wf(),
            final(self).total_bytes < POOL_MAX_SIZE,
            ({
                let due = match old(self).last_alloc_ms {
                    None => true,
                    Some(t) => now_ms >= t && now_ms - t >= POOL_ALLOC_INTERVAL_MS,
                };
                &&& (due ==> final(self).last_alloc_ms == Some(now_ms))
                &&& (!due ==> final(self).last_alloc_ms == old(self).last_alloc_ms
                    && final(self).buffers@.len() == old(self).buffers@.len())
                &&& (due && old(self).total_bytes + POOL_CHUNK_SIZE < POOL_MAX_SIZE ==> final(self).buffers@.len() == old(self).buffers@.len() + 1)
                &&& (due && old(self).total_bytes + POOL_CHUNK_SIZE >= POOL_MAX_SIZE ==> final(self).buffers@.len() == 0)
            }),
    {
        proof {
            let ghost n = self.buffers@.len() as int;
            assert(n < 10) by (nonlinear_arith)
                requires
                    n * POOL_CHUNK_SIZE < POOL_MAX_SIZE,
                    n >= 0,
            ;
        }
        let due = match self.last_alloc_ms {
            None => true,
            Some(t) => now_ms >= t && now_ms - t >= POOL_ALLOC_INTERVAL_MS,
        };
        if due {
            self.allocate_chunk();
            self.last_alloc_ms = Some(now_ms);
        }
        if self.total_bytes >= POOL_MAX_SIZE {
            self.flush();
        }
    }

    /// Add one chunk.
    fn allocate_chunk(&mut self)
        requires
            old(self).wf(),
            old(self).buffers@.len() < 16,
        ensures
            final(self).wf(),
            final(self).buffers@.len() == old(self).buffers@.len() + 1,
            final(self).total_bytes == old(self).total_bytes + POOL_CHUNK_SIZE,
            final(self).last_alloc_ms == old(self).last_alloc_ms,
    {
        let chunk = self.create_buffer();
        proof {
            let ghost n = old(self).buffers@.len() as int;
            assert(n * POOL_CHUNK_SIZE + POOL_CHUNK_SIZE == (n + 1) * POOL_CHUNK_SIZE)
                by (nonlinear_arith);
            assert(n * POOL_CHUNK_SIZE <= 16 * POOL_CHUNK_SIZE) by (nonlinear_arith)
                requires
                    n < 16,
            ;
        }
        self.total_bytes = self.total_bytes + chunk.len();
        self.buffers.push(chunk);
    }

    /// Build one chunk, filled with a pattern so it stays materialized.
    fn create_buffer(&self) -> (r: Vec<u8>)
        ensures
            r@.len() == POOL_CHUNK_SIZE,
    {
        filled_bytes(0xAB, POOL_CHUNK_SIZE)
    }

    /// Drop every chunk.
    fn flush(&mut self)
        ensures
            final(self).wf(),
            final(self).buffers@.len() == 0,
            final(self).total_bytes == 0,
            final(self).last_alloc_ms == old(self).last_alloc_ms,
    {
        self.buffers = Vec::new();
        self.total_bytes = 0;
    }

    /// Bytes currently held.
    pub fn total_bytes(&self) -> (r: usize)
        ensures
            r == self.total_bytes,
    {
        self.total_bytes
    }

    /// Chunks currently held.
    pub fn buffer_count(&self) -> (r: usize)
        ensures
            r == self.buffers@.len(),
    {
        self.buffers.len()
    }
}

/// Half-megabyte chunks for the sawtooth pool.
pub const SAWTOOTH_CHUNK_SIZE: usize = 524288;

/// A pool that ramps from empty to forty megabytes over eight seconds and
/// then drops, following its target exactly in whole chunks.
pub struct SawtoothPool {
    /// The held chunks.
    pub buffers: Vec<Vec<u8>>,
}

impl SawtoothPool {
    /// An empty sawtooth pool.
    pub fn new() -> (r: SawtoothPool)
        ensures
            r.buffers@.len() == 0,
    {
        SawtoothPool { buffers: Vec::new() }
    }

    /// One tick: grow or shrink toward the ramp's current target.
    pub fn tick(&mut self, elapsed_ms: u64)
        requires
            old(self).buffers@.len() <= 100,
        ensures
            ({
                let target = ((elapsed_ms % 8000) * 41943040 / 8000) as int;
                let target_chunks = target / SAWTOOTH_CHUNK_SIZE as int;
                &&& (old(self).buffers@.len() < target_chunks ==> final(self).buffers@.len()
                    == target_chunks)
                &&& (old(self).buffers@.len() > target_chunks + 1 ==> final(self).buffers@.len()
                    == target_chunks + 1)
                &&& (target_chunks <= old(self).buffers@.len() <= target_chunks + 1 ==> final(self).buffers@.len() == old(self).buffers@.len())
            }),
    {
        proof {
            assert(((elapsed_ms % 8000) as int) * 41943040 <= 8000 * 41943040) by (nonlinear_arith)
                requires
                    elapsed_ms % 8000 < 8000,
            ;
            assert(((elapsed_ms % 8000) as int) * 41943040 / 8000 / (SAWTOOTH_CHUNK_SIZE as int)
                < 100) by (nonlinear_arith)
                requires
                    elapsed_ms % 8000 < 8000,
            ;
        }
        let target = ((elapsed_ms % 8000) * 41943040 / 8000) as usize;
        let target_chunks = target / SAWTOOTH_CHUNK_SIZE;
        let ghost start_len = self.buffers@.len() as int;
        while self.buffers.len() < target_chunks
            invariant
                target_chunks < 100,
                start_len >= target_chunks ==> self.buffers@.len() == start_len,
                start_len < target_chunks ==> start_len <= self.buffers@.len() <= target_chunks,
            decreases target_chunks - self.buffers@.len(),
        {
            let chunk = filled_bytes(0xAA, SAWTOOTH_CHUNK_SIZE);
            self.buffers.push(chunk);
        }
        let ghost mid_len = self.buffers@.len() as int;
        while self.buffers.len() > target_chunks + 1
            invariant
                target_chunks < 100,
                mid_len <= target_chunks + 1 ==> self.buffers@.len() == mid_len,
                mid_len > target_chunks + 1 ==> target_chunks + 1 <= self.buffers@.len()
                    <= mid_len,
            decreases self.buffers@.len(),
        {
            self.buffers.pop();
        }
    }
}

/// One-megabyte chunks for the square pool.
pub const SQUARE_CHUNK_SIZE: usize = 1048576;

/// A pool that alternates between five and thirty-five megabytes every
/// three seconds.
pub struct SquarePool {
    /// The held chunks.
    pub buffers: Vec<Vec<u8>>,
}

impl SquarePool {
    /// An empty square pool.
    pub fn new() -> (r: SquarePool)
        ensures
            r.buffers@.len() == 0,
    {
        SquarePool { buffers: Vec::new() }
    }

    /// One tick: hold five chunks in the period's first half, thirty-five
    /// in the second.
    pub fn tick(&mut self, elapsed_ms: u64)
        ensures
            ({
                let target_chunks: int = if elapsed_ms % 6000 < 3000 {
                    5
                } else {
                    35
                };
                &&& (old(self).buffers@.len() < target_chunks ==> final(self).buffers@.len()
                    == target_chunks)
                &&& (old(self).buffers@.len() > target_chunks + 1 ==> final(self).buffers@.len()
                    == target_chunks + 1)
                &&& (target_chunks <= old(self).buffers@.len() <= target_chunks + 1 ==> final(self).buffers@.len() == old(self).buffers@.len())
            }),
    {
        let target_chunks: usize = if elapsed_ms % 6000 < 3000 {
            5
        } else {
            35
        };
        let ghost start_len = self.buffers@.len() as int;
        while self.buffers.len() < target_chunks
            invariant
                target_chunks <= 35,
                start_len >= target_chunks ==> self.buffers@.len() == start_len,
                start_len < target_chunks ==> start_len <= self.buffers@.len() <= target_chunks,
            decreases target_chunks - self.buffers@.len(),
        {
            let chunk = filled_bytes(0xBB, SQUARE_CHUNK_SIZE);
            self.buffers.push(chunk);
        }
        let ghost mid_len = self.buffers@.len() as int;
        while self.buffers.len() > target_chunks + 1
            invariant
                target_chunks <= 35,
                mid_len <= target_chunks + 1 ==> self.buffers@.len() == mid_len,
                mid_len > target_chunks + 1 ==> target_chunks + 1 <= self.buffers@.len()
                    <= mid_len,
            decreases self.buffers@.len(),
        {
            self.buffers.pop();
        }
    }
}

/// Two-megabyte chunks for the depth pool.
pub const DEPTH_CHUNK_SIZE: usize = 2097152;

/// Chunks each depth level holds at most.
pub const DEPTH_TARGET_CHUNKS: usize = 10;

/// A pool that cycles its allocations through four distinct call depths
/// over twelve seconds, growing the active depth and shrinking the rest.
pub struct DepthPool {
    /// Chunks allocated at depth one.
    pub depth_1_buffers: Vec<Vec<u8>>,
    /// Chunks allocated at depth two.
    pub depth_2_buffers: Vec<Vec<u8>>,
    /// Chunks allocated at depth three.
    pub depth_3_buffers: Vec<Vec<u8>>,
    /// Chunks allocated at depth four.
    pub depth_4_buffers: Vec<Vec<u8>>,
}

impl DepthPool {
    /// An empty depth pool.
    pub fn new() -> (r: DepthPool)
        ensures
            r.depth_1_buffers@.len() == 0,
            r.depth_2_buffers@.len() == 0,
            r.depth_3_buffers@.len() == 0,
            r.depth_4_buffers@.len() == 0,
    {
        DepthPool {
            depth_1_buffers: Vec::new(),
            depth_2_buffers: Vec::new(),
            depth_3_buffers: Vec::new(),
            depth_4_buffers: Vec::new(),
        }
    }

    /// One tick: grow the depth whose three-second window the elapsed time
    /// falls in, by one chunk up to the per-depth cap, and shrink each
    /// other depth by one chunk.
    pub fn tick(&mut self, elapsed_ms: u64)
        ensures
            ({
                let active = (elapsed_ms % 12000) / 3000;
                &&& (active == 0 ==> final(self).depth_1_buffers@.len() == if old(self).depth_1_buffers@.len() < DEPTH_TARGET_CHUNKS {
                    old(self).depth_1_buffers@.len() as int + 1
                } else {
                    old(self).depth_1_buffers@.len() as int
                })
                &&& (active != 0 ==> final(self).depth_1_buffers@.len() == if old(self).depth_1_buffers@.len() > 0 {
                    old(self).depth_1_buffers@.len() as int - 1
                } else {
                    0int
                })
            }),
    {
        let active = (elapsed_ms % 12000) / 3000;
        if active == 0 {
            self.grow_depth_1();
            self.shrink_depth_2();
            self.shrink_depth_3();
            self.shrink_depth_4();
        } else if active == 1 {
            self.shrink_depth_1();
            self.grow_depth_2();
            self.shrink_depth_3();
            self.shrink_depth_4();
        } else if active == 2 {
            self.shrink_depth_1();
            self.shrink_depth_2();
            self.grow_depth_3();
            self.shrink_depth_4();
        } else {
            self.shrink_depth_1();
            self.shrink_depth_2();
            self.shrink_depth_3();
            self.grow_depth_4();
        }
    }

    /// Grow depth one by a chunk, up to the cap.
    fn grow_depth_1(&mut self)
        ensures
            final(self).depth_1_buffers@.len() == if old(self).depth_1_buffers@.len()
                < DEPTH_TARGET_CHUNKS {
                old(self).depth_1_buffers@.len() as int + 1
            } else {
                old(self).depth_1_buffers@.len() as int
            },
            final(self).depth_2_buffers@ == old(self).depth_2_buffers@,
            final(self).depth_3_buffers@ == old(self).depth_3_buffers@,
            final(self).depth_4_buffers@ == old(self).depth_4_buffers@,
    {
        if self.depth_1_buffers.len() < DEPTH_TARGET_CHUNKS {
            self.allocate_depth_1();
        }
    }

    /// Allocate depth one's chunk directly.
    fn allocate_depth_1(&mut self)
        ensures
            final(self).depth_1_buffers@.len() == old(self).depth_1_buffers@.len() + 1,
            final(self).depth_2_buffers@ == old(self).depth_2_buffers@,
            final(self).depth_3_buffers@ == old(self).depth_3_buffers@,
            final(self).depth_4_buffers@ == old(self).depth_4_buffers@,
    {
        let chunk = filled_bytes(0xD1, DEPTH_CHUNK_SIZE);
        self.depth_1_buffers.push(chunk);
    }

    /// Shrink depth one by a chunk.
    fn shrink_depth_1(&mut self)
        ensures
            final(self).depth_1_buffers@.len() == if old(self).depth_1_buffers@.len() > 0 {
                old(self).depth_1_buffers@.len() as int - 1
            } else {
                0int
            },
            final(self).depth_2_buffers@ == old(self).depth_2_buffers@,
            final(self).depth_3_buffers@ == old(self).depth_3_buffers@,
            final(self).depth_4_buffers@ == old(self).depth_4_buffers@,
    {
        if self.depth_1_buffers.len() > 0 {
            self.depth_1_buffers.pop();
        }
    }

    /// Grow depth two through one level of indirection.
    fn grow_depth_2(&mut self)
        ensures
            final(self).depth_2_buffers@.len() == if old(self).depth_2_buffers@.len()
                < DEPTH_TARGET_CHUNKS {
                old(self).depth_2_buffers@.len() as int + 1
            } else {
                old(self).depth_2_buffers@.len() as int
            },
            final(self).depth_1_buffers@ == old(self).depth_1_buffers@,
            final(self).depth_3_buffers@ == old(self).depth_3_buffers@,
            final(self).depth_4_buffers@ == old(self).depth_4_buffers@,
    {
        if self.depth_2_buffers.len() < DEPTH_TARGET_CHUNKS {
            self.depth_2_inner_alloc();
        }
    }

    /// The inner frame of depth two's allocation.
    fn depth_2_inner_alloc(&mut self)
        ensures
            final(self).depth_2_buffers@.len() == old(self).depth_2_buffers@.len() + 1,
            final(self).depth_1_buffers@ == old(self).depth_1_buffers@,
            final(self).depth_3_buffers@ == old(self).depth_3_buffers@,
            final(self).depth_4_buffers@ == old(self).depth_4_buffers@,
    {
        let chunk = filled_bytes(0xD2, DEPTH_CHUNK_SIZE);
        self.depth_2_buffers.push(chunk);
    }

    /// Shrink depth two by a chunk.
    fn shrink_depth_2(&mut self)
        ensures
            final(self).depth_2_buffers@.len() == if old(self).depth_2_buffers@.len() > 0 {
                old(self).depth_2_buffers@.len() as int - 1
            } else {
                0int
            },
            final(self).depth_1_buffers@ == old(self).depth_1_buffers@,
            final(self).depth_3_buffers@ == old(self).depth_3_buffers@,
            final(self).depth_4_buffers@ == old(self).depth_4_buffers@,
    {
        if self.depth_2_buffers.len() > 0 {
            self.depth_2_buffers.pop();
        }
    }

    /// Grow depth three through two levels of indirection.
    fn grow_depth_3(&mut self)
        ensures
            final(self).depth_3_buffers@.len() == if old(self).depth_3_buffers@.len()
                < DEPTH_TARGET_CHUNKS {
                old(self).depth_3_buffers@.len() as int + 1
            } else {
                old(self).depth_3_buffers@.len() as int
            },
            final(self).depth_1_buffers@ == old(self).depth_1_buffers@,
            final(self).depth_2_buffers@ == old(self).depth_2_buffers@,
            final(self).depth_4_buffers@ == old(self).depth_4_buffers@,
    {
        if self.depth_3_buffers.len() < DEPTH_TARGET_CHUNKS {
            self.depth_3_level_a();
        }
    }

    /// The outer frame of depth three's allocation.
    fn depth_3_level_a(&mut self)
        ensures
            final(self).depth_3_buffers@.len() == old(self).depth_3_buffers@.len() + 1,
            final(self).depth_1_buffers@ == old(self).depth_1_buffers@,
            final(self).depth_2_buffers@ == old(self).depth_2_buffers@,
            final(self).depth_4_buffers@ == old(self).depth_4_buffers@,
    {
        self.depth_3_level_b();
    }

    /// The inner frame of depth three's allocation.
    fn depth_3_level_b(&mut self)
        ensures
            final(self).depth_3_buffers@.len() == old(self).depth_3_buffers@.len() + 1,
            final(self).depth_1_buffers@ == old(self).depth_1_buffers@,
            final(self).depth_2_buffers@ == old(self).depth_2_buffers@,
            final(self).depth_4_buffers@ == old(self).depth_4_buffers@,
    {
        let chunk = filled_bytes(0xD3, DEPTH_CHUNK_SIZE);
        self.depth_3_buffers.push(chunk);
    }

    /// Shrink depth three by a chunk.
    fn shrink_depth_3(&mut self)
        ensures
            final(self).depth_3_buffers@.len() == if old(self).depth_3_buffers@.len() > 0 {
                old(self).depth_3_buffers@.len() as int - 1
            } else {
                0int
            },
            final(self).depth_1_buffers@ == old(self).depth_1_buffers@,
            final(self).depth_2_buffers@ == old(self).depth_2_buffers@,
            final(self).depth_4_buffers@ == old(self).depth_4_buffers@,
    {
        if self.depth_3_buffers.len() > 0 {
            self.depth_3_buffers.pop();
        }
    }

    /// Grow depth four through three levels of indirection.
    fn grow_depth_4(&mut self)
        ensures
            final(self).depth_4_buffers@.len() == if old(self).depth_4_buffers@.len()
                < DEPTH_TARGET_CHUNKS {
                old(self).depth_4_buffers@.len() as int + 1
            } else {
                old(self).depth_4_buffers@.len() as int
            },
            final(self).depth_1_buffers@ == old(self).depth_1_buffers@,
            final(self).depth_2_buffers@ == old(self).depth_2_buffers@,
            final(self).depth_3_buffers@ == old(self).depth_3_buffers@,
    {
        if self.depth_4_buffers.len() < DEPTH_TARGET_CHUNKS {
            self.depth_4_level_a();
        }
    }

    /// The outer frame of depth four's allocation.
    fn depth_4_level_a(&mut self)
        ensures
            final(self).depth_4_buffers@.len() == old(self).depth_4_buffers@.len() + 1,
            final(self).depth_1_buffers@ == old(self).depth_1_buffers@,
            final(self).depth_2_buffers@ == old(self).depth_2_buffers@,
            final(self).depth_3_buffers@ == old(self).depth_3_buffers@,
    {
        self.depth_4_level_b();
    }

    /// The middle frame of depth four's allocation.
    fn depth_4_level_b(&mut self)
        ensures
            final(self).depth_4_buffers@.len() == old(self).depth_4_buffers@.len() + 1,
            final(self).depth_1_buffers@ == old(self).depth_1_buffers@,
            final(self).depth_2_buffers@ == old(self).depth_2_buffers@,
            final(self).depth_3_buffers@ == old(self).depth_3_buffers@,
    {
        self.depth_4_level_c();
    }

    /// Shrink depth four by a chunk.
    fn shrink_depth_4(&mut self)
        ensures
            final(self).depth_4_buffers@.len() == if old(self).depth_4_buffers@.len() > 0 {
                old(self).depth_4_buffers@.len() as int - 1
            } else {
                0int
            },
            final(self).depth_1_buffers@ == old(self).depth_1_buffers@,
            final(self).depth_2_buffers@ == old(self).depth_2_buffers@,
            final(self).depth_3_buffers@ == old(self).depth_3_buffers@,
    {
        if self.depth_4_buffers.len() > 0 {
            self.depth_4_buffers.pop();
        }
    }

    /// The inner frame of depth four's allocation.
    fn depth_4_level_c(&mut self)
        ensures
            final(self).depth_4_buffers@.len() == old(self).depth_4_buffers@.len() + 1,
            final(self).depth_1_buffers@ == old(self).depth_1_buffers@,
            final(self).depth_2_buffers@ == old(self).depth_2_buffers@,
            final(self).depth_3_buffers@ == old(self).depth_3_buffers@,
    {
        let chunk = filled_bytes(0xD4, DEPTH_CHUNK_SIZE);
        self.depth_4_buffers.push(chunk);
    }
}


/// One step of the payload-filling byte chain.
pub open spec fn spec_fill_step(v: u8) -> u8 {
    vstd::wrapping::u8_specs::wrapping_add(vstd::wrapping::u8_specs::wrapping_mul(v, 37), 17)
}

/// The byte written at position `k` of a payload seeded with `seed`.
pub open spec fn spec_fill_val(seed: u8, k: int) -> u8
    decreases k,
{
    if k <= 0 {
        spec_fill_step(seed)
    } else {
        spec_fill_step(spec_fill_val(seed, k - 1))
    }
}

/// Fill a payload with a deterministic byte pattern derived from a seed.
pub fn fill_payload(payload: &mut Vec<u8>, seed: u64)
    ensures
        final(payload)@.len() == old(payload)@.len(),
        forall|k: int|
            0 <= k < final(payload)@.len() ==> final(payload)@[k] == spec_fill_val(
                (seed as u8),
                k,
            ),
{
    let mut value: u8 = seed as u8;
    let mut k: usize = 0;
    let n = payload.len();
    while k < n
        invariant
            k <= n,
            n == payload@.len(),
            k == 0 ==> value == seed as u8,
            k > 0 ==> value == spec_fill_val((seed as u8), k - 1),
            forall|j: int| 0 <= j < k ==> payload@[j] == spec_fill_val((seed as u8), j),
            forall|j: int| k <= j < n ==> payload@[j] == old(payload)@[j],
        decreases n - k,
    {
        value = value.wrapping_mul(37).wrapping_add(17);
        payload.set(k, value);
        k += 1;
    }
}

/// One round of the deliberately slow hash.
pub open spec fn spec_slow_round(h: u64, byte: u8, i: u64, j: int) -> u64 {
    vstd::wrapping::u64_specs::wrapping_add(
        vstd::wrapping::u64_specs::wrapping_mul(h, 33),
        byte as u64,
    ) ^ vstd::wrapping::u64_specs::wrapping_mul(i, j as u64)
}

/// The hash state after `n` rounds over one byte at position `i`.
pub open spec fn spec_slow_rounds(h: u64, byte: u8, i: u64, n: int) -> u64
    decreases n,
{
    if n <= 0 {
        h
    } else {
        spec_slow_round(spec_slow_rounds(h, byte, i, n - 1), byte, i, n - 1)
    }
}

/// The hash state after folding the first `k` bytes of the data.
pub open spec fn spec_slow_hash(data: Seq<u8>, k: int) -> u64
    decreases k,
{
    if k <= 0 {
        0u64
    } else {
        spec_slow_rounds(spec_slow_hash(data, k - 1), data[k - 1], (k - 1) as u64, 64)
    }
}

/// A deliberately expensive hash: sixty-four mixing rounds per input byte,
/// so this shows up prominently in CPU profiles.
pub fn slow_hash(data: &Vec<u8>) -> (r: u64)
    ensures
        r == spec_slow_hash(data@, data@.len() as int),
{
    let mut hash: u64 = 0;
    let mut i: usize = 0;
    let n = data.len();
    while i < n
        invariant
            i <= n,
            n == data@.len(),
            hash == spec_slow_hash(data@, i as int),
        decreases n - i,
    {
        let byte = data[i];
        let mut j: usize = 0;
        let ghost h0 = hash;
        while j < 64
            invariant
                j <= 64,
                i < n,
                n == data@.len(),
                byte == data@[i as int],
                hash == spec_slow_rounds(h0, byte, i as u64, j as int),
            decreases 64 - j,
        {
            hash = hash.wrapping_mul(33).wrapping_add(byte as u64);
            hash = hash ^ (i as u64).wrapping_mul(j as u64);
            j += 1;
        }
        i += 1;
    }
    hash
}

/// A character the log sanitizer keeps: letters, digits and underscores.
pub open spec fn spec_log_keep(c: char) -> bool {
    (48 <= c as u32 <= 57) || (65 <= c as u32 <= 90) || (97 <= c as u32 <= 122) || c == '_'
}

/// The sanitized form of the first `n` characters: kept characters stay,
/// everything else becomes a dot.
pub open spec fn spec_sanitize_log(s: Seq<char>, n: int) -> Seq<char>
    decreases n,
{
    if n <= 0 || n > s.len() {
        Seq::empty()
    } else {
        spec_sanitize_log(s, n - 1).push(
            if spec_log_keep(s[n - 1]) {
                s[n - 1]
            } else {
                '.'
            },
        )
    }
}

/// Sanitize a string for a log line: letters, digits and underscores
/// stay; everything else becomes a dot.
pub fn sanitize_for_log(s: &str) -> (r: String)
    ensures
        r@ == spec_sanitize_log(s@, s@.len() as int),
{
    let n = s.unicode_len();
    let mut r = String::new();
    let mut i: usize = 0;
    while i < n
        invariant
            i <= n,
            n == s@.len(),
            r@ == spec_sanitize_log(s@, i as int),
        decreases n - i,
    {
        let c = s.get_char(i);
        let u = c as u32;
        let keep = (48 <= u && u <= 57) || (65 <= u && u <= 90) || (97 <= u && u <= 122) || c
            == '_';
        if keep {
            let piece = s.substring_char(i, i + 1);
            r.append(piece);
        } else {
            r.append(".");
            proof {
                reveal_strlit(".");
            }
        }
        proof {
            assert(r@ =~= spec_sanitize_log(s@, i + 1));
        }
        i += 1;
    }
    r
}

/// The scrambling constant behind trace identifiers.
pub const TRACE_ID_MIX: u64 = 0x9e3779b97f4a7c15;

/// Render a trace identifier for a request seed: a fixed prefix and the
/// scrambled seed in hexadecimal.
pub fn generate_trace_id(seed: u64) -> (r: String)
    ensures
        r@ == "trace_"@ + spec_hex_digits(
            vstd::wrapping::u64_specs::wrapping_mul(seed, TRACE_ID_MIX) as int,
        ),
{
    let mut r = String::new();
    r.append("trace_");
    let h = u64_to_hex(seed.wrapping_mul(TRACE_ID_MIX));
    r.append(h.as_str());
    proof {
        assert(r@ =~= "trace_"@ + spec_hex_digits(
            vstd::wrapping::u64_specs::wrapping_mul(seed, TRACE_ID_MIX) as int,
        ));
    }
    r
}

/// Render a byte count for humans: bytes below one kibibyte, tenths of
/// kibibytes below one mebibyte, hundredths of mebibytes above, the
/// fractions truncated.
pub fn format_bytes(bytes: usize) -> (r: String)
    ensures
        bytes < 1024 ==> r@ == spec_dec_digits(bytes as int) + "B"@,
        1024 <= bytes < 1048576 ==> r@ == spec_dec_digits((bytes as int) * 10 / 1024 / 10) + "."@
            + spec_dec_digits(((bytes as int) * 10 / 1024) % 10) + "KB"@,
        1048576 <= bytes <= 0xffff_ffff_ffff ==> r@ == spec_dec_digits(
            (bytes as int) * 100 / 1048576 / 100,
        ) + "."@ + spec_dec_digits(((bytes as int) * 100 / 1048576 / 10) % 10) + spec_dec_digits(
            ((bytes as int) * 100 / 1048576) % 10,
        ) + "MB"@,
        bytes > 0xffff_ffff_ffff ==> r@ == spec_dec_digits((bytes as int) / 1048576) + ".00MB"@,
{
    if bytes < 1024 {
        let mut r = u64_to_dec(bytes as u64);
        r.append("B");
        r
    } else if bytes < 1048576 {
        let scaled = (bytes as u64) * 10 / 1024;
        let mut r = u64_to_dec(scaled / 10);
        r.append(".");
        let f = u64_to_dec(scaled % 10);
        r.append(f.as_str());
        r.append("KB");
        proof {
            assert(r@ =~= spec_dec_digits((bytes as int) * 10 / 1024 / 10) + "."@
                + spec_dec_digits(((bytes as int) * 10 / 1024) % 10) + "KB"@);
        }
        r
    } else {
        if bytes as u64 > 0xffff_ffff_ffff {
            // Keep the scaled product inside the counter; sizes this large
            // do not occur in the workload.
            let mut r = u64_to_dec((bytes / 1048576) as u64);
            r.append(".00MB");
            proof {
                assert(r@ =~= spec_dec_digits((bytes as int) / 1048576) + ".00MB"@);
            }
            return r;
        }
        let scaled = (bytes as u64) * 100 / 1048576;
        let mut r = u64_to_dec(scaled / 100);
        r.append(".");
        let f1 = u64_to_dec((scaled / 10) % 10);
        r.append(f1.as_str());
        let f2 = u64_to_dec(scaled % 10);
        r.append(f2.as_str());
        r.append("MB");
        proof {
            assert(r@ =~= spec_dec_digits((bytes as int) * 100 / 1048576 / 100) + "."@
                + spec_dec_digits(((bytes as int) * 100 / 1048576 / 10) % 10) + spec_dec_digits(
                ((bytes as int) * 100 / 1048576) % 10,
            ) + "MB"@);
        }
        r
    }
}


/// Copy a byte vector.
pub fn copy_bytes(v: &Vec<u8>) -> (r: Vec<u8>)
    ensures
        r@ == v@,
{
    let mut r: Vec<u8> = Vec::new();
    let mut i: usize = 0;
    while i < v.len()
        invariant
            i <= v@.len(),
            r@ == v@.subrange(0, i as int),
        decreases v@.len() - i,
    {
        r.push(v[i]);
        proof {
            assert(r@ =~= v@.subrange(0, i + 1));
        }
        i += 1;
    }
    proof {
        assert(r@ =~= v@);
    }
    r
}

/// The checksum of a payload: the slow hash of each twelve-byte chunk,
/// folded left to right into a wrapping accumulator.
pub open spec fn spec_chunk_checksum_from(data: Seq<u8>, pos: int, acc: u64) -> u64
    decreases data.len() + 12 - pos,
{
    if pos < 0 || pos >= data.len() {
        acc
    } else {
        let end = if pos + 12 <= data.len() {
            pos + 12
        } else {
            data.len() as int
        };
        spec_chunk_checksum_from(
            data,
            pos + 12,
            vstd::wrapping::u64_specs::wrapping_add(
                acc,
                spec_slow_hash(data.subrange(pos, end), end - pos),
            ),
        )
    }
}

/// The checksum of a whole payload.
pub open spec fn spec_chunk_checksum(data: Seq<u8>) -> u64 {
    spec_chunk_checksum_from(data, 0, 0)
}

/// Derive the synthetic headers of a request: a checksum of the payload, a
/// length header, and a mode derived from the first byte.
pub fn parse_headers(payload: &Vec<u8>) -> (r: Vec<(String, String)>)
    requires
        payload@.len() > 0,
    ensures
        r@.len() == 3,
        r@[0].0@ == "x-check"@ && r@[0].1@ == spec_hex_digits(
            spec_chunk_checksum(payload@) as int,
        ),
        r@[1].0@ == "x-len"@ && r@[1].1@ == spec_dec_digits(payload@.len() as int),
        r@[2].0@ == "x-mode"@ && r@[2].1@ == spec_dec_digits((payload@[0] % 4) as int),
    {
    let mut checksum: u64 = 0;
    let mut pos: usize = 0;
    let n = payload.len();
    while pos < n
        invariant
            pos <= n,
            n == payload@.len(),
            spec_chunk_checksum(payload@) == spec_chunk_checksum_from(
                payload@,
                pos as int,
                checksum,
            ),
        decreases n - pos,
    {
        let end = if n - pos >= 12 {
            pos + 12
        } else {
            n
        };
        let mut chunk: Vec<u8> = Vec::new();
        let mut k = pos;
        while k < end
            invariant
                pos <= k <= end <= n,
                n == payload@.len(),
                end == if pos + 12 <= n {
                    pos + 12
                } else {
                    n as int
                },
                chunk@ == payload@.subrange(pos as int, k as int),
            decreases end - k,
        {
            chunk.push(payload[k]);
            proof {
                assert(chunk@ =~= payload@.subrange(pos as int, k + 1));
            }
            k += 1;
        }
        proof {
            assert(chunk@ == payload@.subrange(pos as int, end as int));
            assert(chunk@.len() == end - pos);
        }
        let ghost pos0 = pos as int;
        let ghost acc0 = checksum;
        checksum = checksum.wrapping_add(slow_hash(&chunk));
        proof {
            assert(spec_chunk_checksum_from(payload@, pos0, acc0) == spec_chunk_checksum_from(
                payload@,
                pos0 + 12,
                checksum,
            ));
            if end < pos + 12 {
                assert(spec_chunk_checksum_from(payload@, pos0 + 12, checksum) == checksum);
                assert(spec_chunk_checksum_from(payload@, end as int, checksum) == checksum);
            }
        }
        pos = end;
    }
    let mut headers: Vec<(String, String)> = Vec::new();
    headers.push(("x-check".to_owned(), u64_to_hex(checksum)));
    headers.push(("x-len".to_owned(), u64_to_dec(payload.len() as u64)));
    headers.push(("x-mode".to_owned(), u64_to_dec((payload[0] % 4) as u64)));
    headers
}

/// A cache of response bodies with a hit counter per entry, a bookkeeping
/// list that grows faster than it is trimmed (a deliberate, bounded leak),
/// and eviction of the least-used entry when full.
pub struct DataCache {
    /// The entries: key, data, and hits.
    pub entries: Vec<(String, Vec<u8>, u32)>,
    /// Keys ever inserted, trimmed in blocks (the bounded leak).
    pub recent_keys: Vec<String>,
    /// The eviction threshold.
    pub max_size: usize,
}

impl DataCache {
    /// Keys are unique, the cache is within its (positive) capacity, and
    /// the bookkeeping list is trimmed.
    pub open spec fn wf(self) -> bool {
        &&& forall|i: int, j: int|
            0 <= i < j < self.entries@.len() ==> (#[trigger] self.entries@[i]).0@ != (
            #[trigger] self.entries@[j]).0@
        &&& self.entries@.len() <= self.max_size
        &&& 1 <= self.max_size
        &&& self.recent_keys@.len() <= 4000
    }

    /// An empty cache holding up to 512 entries.
    pub fn new() -> (r: DataCache)
        ensures
            r.wf(),
            r.entries@.len() == 0,
            r.recent_keys@.len() == 0,
            r.max_size == 512,
    {
        DataCache { entries: Vec::new(), recent_keys: Vec::new(), max_size: 512 }
    }

    /// Look a key up; a hit bumps the entry's use counter and returns a
    /// copy of the data.
    pub fn get(&mut self, key: &str) -> (r: Option<Vec<u8>>)
        requires
            old(self).wf(),
        ensures
            final(self).wf(),
            final(self).entries@.len() == old(self).entries@.len(),
            final(self).recent_keys@ == old(self).recent_keys@,
            final(self).max_size == old(self).max_size,
            r is None ==> final(self).entries@ == old(self).entries@,
            r is Some <==> exists|i: int|
                0 <= i < old(self).entries@.len() && (#[trigger] old(self).entries@[i]).0@ == key@,
            r is Some ==> exists|i: int|
                {
                    &&& 0 <= i < old(self).entries@.len()
                    &&& (#[trigger] old(self).entries@[i]).0@ == key@
                    &&& r->Some_0@ == old(self).entries@[i].1@
                    &&& final(self).entries@[i].0@ == old(self).entries@[i].0@
                    &&& final(self).entries@[i].1@ == old(self).entries@[i].1@
                    &&& final(self).entries@[i].2 == (if old(self).entries@[i].2 < u32::MAX {
                        (old(self).entries@[i].2 + 1) as u32
                    } else {
                        old(self).entries@[i].2
                    })
                    &&& forall|j: int|
                        0 <= j < old(self).entries@.len() && j != i ==> final(self).entries@[j]
                            == old(self).entries@[j]
                },
    {
        let mut i: usize = 0;
        while i < self.entries.len()
            invariant
                self.wf(),
                *self == *old(self),
                i <= self.entries@.len(),
                forall|j: int| 0 <= j < i ==> (#[trigger] self.entries@[j]).0@ != key@,
            decreases self.entries@.len() - i,
        {
            if crate::strutil::str_eq(self.entries[i].0.as_str(), key) {
                let data = copy_bytes(&self.entries[i].1);
                let hits = self.entries[i].2;
                let name = self.entries[i].0.clone();
                let bumped = if hits < u32::MAX {
                    hits + 1
                } else {
                    hits
                };
                let ghost pre = self.entries@;
                self.entries.set(i, (name, copy_bytes(&data), bumped));
                proof {
                    assert(self.entries@[i as int].0@ == key@);
                    assert forall|a: int, b: int|
                        0 <= a < b < self.entries@.len() implies (#[trigger] self.entries@[a]).0@
                        != (#[trigger] self.entries@[b]).0@ by {
                        assert(pre[a].0@ != pre[b].0@);
                    }
                    assert(old(self).entries@[i as int].0@ == key@ && data@ == old(
                        self,
                    ).entries@[i as int].1@);
                    assert(self.entries@[i as int].0@ == old(self).entries@[i as int].0@);
                    assert(self.entries@[i as int].1@ == old(self).entries@[i as int].1@);
                    assert(self.entries@ == pre.update(
                        i as int,
                        self.entries@[i as int],
                    ));
                }
                return Some(data);
            }
            i += 1;
        }
        None
    }

    /// Insert a key: an existing entry is replaced (its hits reset), the
    /// least-used entry is evicted when the cache is full, and the key is
    /// remembered in the bookkeeping list, which is trimmed by half only
    /// past four thousand entries.
    pub fn put(&mut self, key: String, data: Vec<u8>)
        requires
            old(self).wf(),
        ensures
            final(self).wf(),
            exists|i: int|
                0 <= i < final(self).entries@.len() && (#[trigger] final(self).entries@[i]).0@
                    == key@ && final(self).entries@[i].1@ == data@,
            final(self).entries@.len() <= final(self).max_size,
            final(self).max_size == old(self).max_size,
            final(self).recent_keys@.len() <= 4000,
    {
        let ghost entry0 = *self;
        if self.entries.len() >= self.max_size {
            self.evict_one();
        }
        self.recent_keys.push(key.clone());
        let mut i: usize = 0;
        let mut replaced = false;
        while i < self.entries.len() && !replaced
            invariant
                forall|a: int, b: int|
                    0 <= a < b < self.entries@.len() ==> (#[trigger] self.entries@[a]).0@ != (
                    #[trigger] self.entries@[b]).0@,
                self.recent_keys@.len() <= 4001,
                self.entries@.len() < self.max_size,
                self.max_size == old(self).max_size,
                i <= self.entries@.len(),
                !replaced ==> forall|j: int|
                    0 <= j < i ==> (#[trigger] self.entries@[j]).0@ != key@,
                replaced ==> exists|j: int|
                    0 <= j < self.entries@.len() && (#[trigger] self.entries@[j]).0@ == key@
                        && self.entries@[j].1@ == data@,
            decreases self.entries@.len() - i, if replaced { 0int } else { 1int },
        {
            if crate::strutil::str_eq(self.entries[i].0.as_str(), key.as_str()) {
                let ghost pre = self.entries@;
                self.entries.set(i, (key.clone(), copy_bytes(&data), 0));
                proof {
                    assert(self.entries@[i as int].0@ == key@ && self.entries@[i as int].1@
                        == data@);
                    assert forall|a: int, b: int|
                        0 <= a < b < self.entries@.len() implies (#[trigger] self.entries@[a]).0@
                        != (#[trigger] self.entries@[b]).0@ by {
                        assert(pre[a].0@ != pre[b].0@);
                    }
                }
                replaced = true;
            }
            i += 1;
        }
        if !replaced {
            let ghost pre = self.entries@;
            self.entries.push((key, copy_bytes(&data), 0));
            proof {
                assert(self.entries@.last().1@ == data@);
                assert forall|a: int, b: int|
                    0 <= a < b < self.entries@.len() implies (#[trigger] self.entries@[a]).0@ != (
                #[trigger] self.entries@[b]).0@ by {
                    if b < pre.len() {
                        assert(pre[a].0@ != pre[b].0@);
                    } else {
                        assert(pre[a].0@ != self.entries@[b].0@);
                    }
                }
            }
        }
        if self.recent_keys.len() > 4000 {
            self.trim_recent();
        }
    }

    /// Evict the entry with the fewest hits (the first such entry).
    fn evict_one(&mut self)
        requires
            old(self).wf(),
        ensures
            final(self).wf(),
            final(self).entries@.len() == if old(self).entries@.len() > 0 {
                old(self).entries@.len() - 1
            } else {
                0int
            },
            final(self).recent_keys@ == old(self).recent_keys@,
            final(self).max_size == old(self).max_size,
    {
        if self.entries.len() == 0 {
            return ;
        }
        let mut min_idx: usize = 0;
        let mut i: usize = 1;
        while i < self.entries.len()
            invariant
                min_idx < self.entries@.len(),
                1 <= i <= self.entries@.len(),
            decreases self.entries@.len() - i,
        {
            if self.entries[i].2 < self.entries[min_idx].2 {
                min_idx = i;
            }
            i += 1;
        }
        let ghost pre = self.entries@;
        self.entries.remove(min_idx);
        proof {
            assert forall|a: int, b: int|
                0 <= a < b < self.entries@.len() implies (#[trigger] self.entries@[a]).0@ != (
            #[trigger] self.entries@[b]).0@ by {
                let a0 = if a < min_idx {
                    a
                } else {
                    a + 1
                };
                let b0 = if b < min_idx {
                    b
                } else {
                    b + 1
                };
                assert(self.entries@[a] == pre[a0] && self.entries@[b] == pre[b0]);
                assert(pre[a0].0@ != pre[b0].0@);
            }
        }
    }

    /// Drop the older half of the bookkeeping list.
    fn trim_recent(&mut self)
        requires
            old(self).recent_keys@.len() > 4000,
        ensures
            final(self).recent_keys@.len() == old(self).recent_keys@.len() - 2000,
            final(self).entries@ == old(self).entries@,
            final(self).max_size == old(self).max_size,
    {
        let mut kept: Vec<String> = Vec::new();
        let mut i: usize = 2000;
        let n = self.recent_keys.len();
        while i < n
            invariant
                2000 <= i <= n,
                n == self.recent_keys@.len(),
                n > 4000,
                kept@.len() == i - 2000,
                self.entries@ == old(self).entries@,
                self.recent_keys@ == old(self).recent_keys@,
                self.max_size == old(self).max_size,
            decreases n - i,
        {
            kept.push(self.recent_keys[i].clone());
            i += 1;
        }
        self.recent_keys = kept;
    }
}

/// A rule's bounds pass when the measured length lies inside them.
pub open spec fn spec_validation_passes(
    key_len: int,
    header_count: int,
    payload_len: int,
) -> bool {
    2 <= key_len + header_count <= 128 && 32 <= payload_len <= 4096
}

/// Validates requests against fixed length rules and keeps expensive
/// debugging records of recent validations (a deliberate, bounded leak).
pub struct InputValidator {
    /// Recent validation records: key, verdict, and a debug line.
    pub recent: Vec<(String, bool, String)>,
    /// Counts records since the last shrink.
    pub leak_guard: usize,
}

impl InputValidator {
    /// The record list is trimmed.
    pub open spec fn wf(self) -> bool {
        self.recent@.len() <= 4000
    }

    /// A fresh validator.
    pub fn new() -> (r: InputValidator)
        ensures
            r.wf(),
            r.recent@.len() == 0,
            r.leak_guard == 0,
    {
        InputValidator { recent: Vec::new(), leak_guard: 0 }
    }

    /// Validate one request against the rules: the key (plus the header
    /// count) and the payload must fall inside their length windows. A
    /// record of the validation is kept either way.
    pub fn validate(&mut self, request: &Request, headers: &Vec<(String, String)>) -> (r: bool)
        requires
            old(self).wf(),
        ensures
            final(self).wf(),
            r == spec_validation_passes(
                request.key@.len() as int,
                headers@.len() as int,
                request.payload@.len() as int,
            ),
            final(self).recent@.len() <= 4000,
    {
        let passed = self.check_rules(request, headers);
        self.record_validation(request, passed);
        passed
    }

    /// Apply the length rules.
    fn check_rules(&self, request: &Request, headers: &Vec<(String, String)>) -> (r: bool)
        ensures
            r == spec_validation_passes(
                request.key@.len() as int,
                headers@.len() as int,
                request.payload@.len() as int,
            ),
    {
        let key_len = request.key.as_str().unicode_len();
        if key_len > usize::MAX - headers.len() {
            return false;
        }
        let measured = key_len + headers.len();
        let payload_len = request.payload.len();
        2 <= measured && measured <= 128 && 32 <= payload_len && payload_len <= 4096
    }

    /// Keep a record of one validation, with an expensive debug line;
    /// the record list drains in blocks once it passes four thousand.
    fn record_validation(&mut self, request: &Request, passed: bool)
        requires
            old(self).wf(),
        ensures
            final(self).wf(),
    {
        let debug_info = self.generate_debug_info(request);
        self.recent.push((request.key.clone(), passed, debug_info));
        if self.leak_guard < usize::MAX {
            self.leak_guard = self.leak_guard + 1;
        }
        if self.recent.len() > 4000 {
            let mut kept: Vec<(String, bool, String)> = Vec::new();
            let mut i: usize = 1200;
            let n = self.recent.len();
            while i < n
                invariant
                    1200 <= i <= n,
                    n == self.recent@.len(),
                    n > 4000,
                    kept@.len() == i - 1200,
                decreases n - i,
            {
                let (k, p, d) = &self.recent[i];
                kept.push((k.clone(), *p, d.clone()));
                i += 1;
            }
            self.recent = kept;
        }
        if self.leak_guard >= 2500 {
            self.leak_guard = 0;
        }
    }

    /// Build the debug line: the trace identifier, the sanitized key and
    /// the rendered payload size.
    fn generate_debug_info(&self, request: &Request) -> (r: String)
        ensures
            r@.len() > 0,
    {
        let trace_id = generate_trace_id(request.id);
        let sanitized = sanitize_for_log(request.key.as_str());
        let size_str = format_bytes(request.payload.len());
        let mut out = String::new();
        out.append("[");
        out.append(trace_id.as_str());
        out.append("] key=");
        out.append(sanitized.as_str());
        out.append(" size=");
        out.append(size_str.as_str());
        out
    }
}

/// The price at slot `i` of the pricing table.
pub open spec fn spec_price(i: int) -> u64 {
    (199 + (i * 7) % 97) as u64
}

/// One step of the receipt total: sixty-five add-and-mix rounds per item.
pub open spec fn spec_total_rounds(t: u64, price: u64, n: int) -> u64
    decreases n,
{
    if n <= 0 {
        t
    } else {
        vstd::wrapping::u64_specs::wrapping_add(
            vstd::wrapping::u64_specs::wrapping_mul(
                vstd::wrapping::u64_specs::wrapping_add(spec_total_rounds(t, price, n - 1), price),
                31,
            ),
            17,
        )
    }
}

/// The running receipt total after the first `n` items.
pub open spec fn spec_cart_total(items: Seq<u64>, n: int) -> u64
    decreases n,
{
    if n <= 0 {
        0u64
    } else {
        spec_total_rounds(spec_cart_total(items, n - 1), items[n - 1], 65)
    }
}

/// The checkout path: expands a cart from a pricing table, totals it with
/// deliberate arithmetic churn, applies promotions, and serializes a
/// receipt.
pub struct CheckoutEngine {
    /// The fixed pricing table.
    pub pricing_table: Vec<u64>,
}

impl CheckoutEngine {
    /// A checkout engine over the standard 512-slot pricing table.
    pub fn new() -> (r: CheckoutEngine)
        ensures
            r.pricing_table@.len() == 512,
            forall|i: int| 0 <= i < 512 ==> #[trigger] r.pricing_table@[i] == spec_price(i),
    {
        let mut pricing_table: Vec<u64> = Vec::new();
        let mut i: usize = 0;
        while i < 512
            invariant
                i <= 512,
                pricing_table@.len() == i,
                forall|j: int| 0 <= j < i ==> #[trigger] pricing_table@[j] == spec_price(j),
            decreases 512 - i,
        {
            pricing_table.push(199 + ((i as u64) * 7) % 97);
            i += 1;
        }
        CheckoutEngine { pricing_table }
    }

    /// Handle one checkout request: twelve cart items drawn from the
    /// table, totalled, discounted by the request's promotion flags, and
    /// serialized. The response is created, never cached.
    pub fn handle(&mut self, request: &Request, _headers: &Vec<(String, String)>) -> (r: Response)
        requires
            old(self).pricing_table@.len() == 512,
        ensures
            r.status == 201,
            !r.cacheable,
            final(self).pricing_table@ == old(self).pricing_table@,
    {
        let items = self.expand_cart(request.payload.len() as u64);
        let total = self.compute_total(&items);
        let discounted = self.apply_promos(total, request.flags);
        let body = self.serialize_receipt(&items, discounted);
        Response { status: 201, body, cacheable: false }
    }

    /// Draw twelve prices from the table, hopping through it from a seed.
    fn expand_cart(&self, seed: u64) -> (r: Vec<u64>)
        requires
            self.pricing_table@.len() == 512,
        ensures
            r@.len() == 12,
    {
        let mut items: Vec<u64> = Vec::new();
        let mut idx: usize = (seed % 512) as usize;
        let mut k: usize = 0;
        while k < 12
            invariant
                k <= 12,
                items@.len() == k,
                idx < 512,
                self.pricing_table@.len() == 512,
            decreases 12 - k,
        {
            items.push(self.pricing_table[idx]);
            idx = (idx * 13 + 7) % 512;
            k += 1;
        }
        items
    }

    /// Total the cart with sixty-five wrapping rounds per item.
    fn compute_total(&self, items: &Vec<u64>) -> (r: u64)
        ensures
            r == spec_cart_total(items@, items@.len() as int),
    {
        let mut total: u64 = 0;
        let mut i: usize = 0;
        while i < items.len()
            invariant
                i <= items@.len(),
                total == spec_cart_total(items@, i as int),
            decreases items@.len() - i,
        {
            let price = items[i];
            let mut j: usize = 0;
            let ghost t0 = total;
            while j < 65
                invariant
                    j <= 65,
                    i < items@.len(),
                    price == items@[i as int],
                    total == spec_total_rounds(t0, price, j as int),
                decreases 65 - j,
            {
                total = total.wrapping_add(price);
                total = total.wrapping_mul(31).wrapping_add(17);
                j += 1;
            }
            i += 1;
        }
        total
    }

    /// Apply the promotion flags: the first takes a tenth off, the second
    /// a twentieth, both against the undiscounted total.
    fn apply_promos(&self, total: u64, flags: u8) -> (r: u64)
        ensures
            r == ({
                let v1: u64 = if flags & 1 == 1 {
                    (total - total / 10) as u64
                } else {
                    total
                };
                if flags & 2 == 2 {
                    if v1 >= total / 20 {
                        (v1 - total / 20) as u64
                    } else {
                        0u64
                    }
                } else {
                    v1
                }
            }),
    {
        let mut value = total;
        if flags & 1 == 1 {
            value = value - total / 10;
        }
        if flags & 2 == 2 {
            value = value.saturating_sub(total / 20);
        }
        value
    }

    /// Serialize the receipt: each item followed by a bar, then the
    /// total, rendered as a byte size for the demonstration's sake.
    fn serialize_receipt(&self, items: &Vec<u64>, total: u64) -> (r: Vec<u8>)
        ensures
            r@.len() > 0,
    {
        let mut out = String::new();
        let mut i: usize = 0;
        while i < items.len()
            invariant
                i <= items@.len(),
            decreases items@.len() - i,
        {
            let d = u64_to_dec(items[i]);
            out.append(d.as_str());
            out.append("|");
            i += 1;
        }
        out.append("total=");
        let t = format_bytes((total % 0x1_0000_0000) as usize);
        out.append(t.as_str());
        string_to_bytes(&out)
    }
}

/// The bytes of a receipt string.
fn string_to_bytes(s: &String) -> (r: Vec<u8>)
    ensures
        r@ == vstd::utf8::encode_utf8(s@),
{
    let b = s.as_str().as_bytes();
    let mut r: Vec<u8> = Vec::new();
    let mut i: usize = 0;
    while i < b.len()
        invariant
            i <= b@.len(),
            r@ == b@.subrange(0, i as int),
        decreases b@.len() - i,
    {
        r.push(b[i]);
        proof {
            assert(r@ =~= b@.subrange(0, i + 1));
        }
        i += 1;
    }
    proof {
        assert(r@ =~= b@);
    }
    r
}

} // verus!


