//! The 32-bit Mersenne Twister (MT19937) pseudo-random generator.
use vstd::prelude::*;

verus! {

pub const N: usize = 624;

pub open spec fn wrap(x: int) -> u32 {
    (x % 0x1_0000_0000) as u32
}

/// Word `i` of the state that `seed` initialises.
pub open spec fn seed_word(seed: u32, i: nat) -> u32
    decreases i,
{
    if i == 0 {
        seed
    } else {
        let p = seed_word(seed, (i - 1) as nat);
        wrap(1812433253 * ((p ^ (p >> 30u32)) as int) + i)
    }
}

/// The state after seeding with one word.
pub open spec fn seeded(seed: u32) -> Seq<u32> {
    Seq::new(N as nat, |i: int| seed_word(seed, i as nat))
}

/// The new value of word `i` in the twist, reading the (partly twisted) state `mt`.
pub open spec fn twisted_word(mt: Seq<u32>, i: int) -> u32 {
    let y = wrap((mt[i] & 0x8000_0000u32) as int + (mt[(i + 1) % (N as int)] & 0x7fff_ffffu32) as int);
    let v = (y >> 1u32) ^ mt[(i + 397) % (N as int)];
    if y % 2 != 0 {
        v ^ 0x9908_b0dfu32
    } else {
        v
    }
}

/// The state after the first `n` words of the twist.
pub open spec fn twist_upto(mt: Seq<u32>, n: nat) -> Seq<u32>
    decreases n,
{
    if n == 0 {
        mt
    } else {
        let prev = twist_upto(mt, (n - 1) as nat);
        prev.update(n - 1, twisted_word(prev, n - 1))
    }
}

/// The state after a whole twist.
pub open spec fn twist(mt: Seq<u32>) -> Seq<u32> {
    twist_upto(mt, N as nat)
}

/// The output for state word `y`.
pub open spec fn temper(y: u32) -> u32 {
    let y1 = y ^ (y >> 11u32);
    let y2 = y1 ^ ((y1 << 7u32) & 2636928640u32);
    let y3 = y2 ^ ((y2 << 15u32) & 4022730752u32);
    y3 ^ (y3 >> 18u32)
}

/// The state and index of a generator.
pub struct MtState {
    pub mt: Seq<u32>,
    pub mti: nat,
}

/// One draw: the output and the next state.
pub open spec fn draw(s: MtState) -> (u32, MtState) {
    let mt = if s.mti == 0 { twist(s.mt) } else { s.mt };
    (temper(mt[s.mti as int]), MtState { mt, mti: (s.mti + 1) % (N as nat) })
}

/// One step of the first mixing pass of array seeding, on the state and `i`, `j`.
pub open spec fn key_step(st: (Seq<u32>, int, int), key: Seq<u32>) -> (Seq<u32>, int, int) {
    let (m, a, b) = st;
    let p = m[a - 1];
    let tmp = wrap((p ^ (p >> 30u32)) as int * 1664525);
    let v = wrap((m[a] ^ tmp) as int + key[b] as int + b);
    let m2 = m.update(a, v);
    let a2 = a + 1;
    let m3 = if a2 >= N as int { m2.update(0, m2[N - 1]) } else { m2 };
    let a3 = if a2 >= N as int { 1 } else { a2 };
    let b2 = if b + 1 >= key.len() { 0 } else { b + 1 };
    (m3, a3, b2)
}

/// The first mixing pass: the state, `i` and `j` after `steps` steps.
pub open spec fn mix_key(mt: Seq<u32>, i: int, j: int, key: Seq<u32>, steps: nat) -> (Seq<u32>, int, int)
    decreases steps,
{
    if steps == 0 {
        (mt, i, j)
    } else {
        key_step(mix_key(mt, i, j, key, (steps - 1) as nat), key)
    }
}

/// One step of the second mixing pass, on the state and `i`.
pub open spec fn tail_step(st: (Seq<u32>, int)) -> (Seq<u32>, int) {
    let (m, a) = st;
    let p = m[a - 1];
    let tmp = wrap((p ^ (p >> 30u32)) as int * 1566083941);
    let v = wrap((m[a] ^ tmp) as int - a);
    let m2 = m.update(a, v);
    let a2 = a + 1;
    let m3 = if a2 >= N as int { m2.update(0, m2[N - 1]) } else { m2 };
    let a3 = if a2 >= N as int { 1 } else { a2 };
    (m3, a3)
}

/// The second mixing pass: the state and `i` after `steps` steps.
pub open spec fn mix_tail(mt: Seq<u32>, i: int, steps: nat) -> (Seq<u32>, int)
    decreases steps,
{
    if steps == 0 {
        (mt, i)
    } else {
        tail_step(mix_tail(mt, i, (steps - 1) as nat))
    }
}

/// The state that seeding with the words `key` gives.
pub open spec fn seeded_by_array(key: Seq<u32>) -> Seq<u32> {
    let k = if key.len() < N { N as nat } else { key.len() };
    let (m1, i1, _) = mix_key(seeded(19650218), 1, 0, key, k);
    let (m2, _) = mix_tail(m1, i1, (N - 1) as nat);
    m2.update(0, 0x8000_0000u32)
}

/// Fisher-Yates from position `i` down to 1: the items and the generator state after.
pub open spec fn shuffled<T>(a: Seq<T>, s: MtState, i: nat) -> (Seq<T>, MtState)
decreases i,
{
if i == 0 {
    (a, s)
} else {
    let (r, s2) = draw(s);
    let j = (r % ((i + 1) as u32)) as int;
    shuffled(a.update(i as int, a[j]).update(j, a[i as int]), s2, (i - 1) as nat)
}
}

/// A Mersenne Twister generator.
pub struct MT19937 {
    mt: Vec<u32>,
    mti: usize,
}

impl View for MT19937 {
    type V = MtState;

    closed spec fn view(&self) -> MtState {
        MtState { mt: self.mt@, mti: self.mti as nat }
    }
}

impl MT19937 {
    pub closed spec fn wf(&self) -> bool {
        self.mt@.len() == N && self.mti < N
    }

    
/// A generator seeded with one word.
    pub fn new(seed: u32) -> (r: MT19937)
        ensures
            r.wf(),
            r@ == (MtState { mt: seeded(seed), mti: 0 }),
    {
        let mut mt: Vec<u32> = Vec::new();
        mt.push(seed);
        let mut i: usize = 1;
        while i < N
            invariant
                1 <= i <= N,
                mt@.len() == i,
                forall|k: int| 0 <= k < i ==> mt@[k] == seed_word(seed, k as nat),
            decreases N - i,
        {
            let p = mt[i - 1];
            let v = 1812433253u32.wrapping_mul(p ^ (p >> 30)).wrapping_add(i as u32);
            proof {
                let x = (p ^ (p >> 30u32)) as int;
                assert(v == wrap(1812433253 * x + i)) by (nonlinear_arith)
                    requires
                        v == wrap(wrap(1812433253 * x) as int + i),
                        0 <= x,
                        0 <= i < 0x1_0000_0000,
                ;
            }
            mt.push(v);
            i = i + 1;
        }
        let r = MT19937 { mt, mti: 0 };
        assert(r@.mt =~= seeded(seed));
        r
    }

    fn twist(&mut self)
        requires
            old(self).wf(),
        ensures
            final(self).wf(),
            final(self)@ == (MtState { mt: twist(old(self)@.mt), mti: old(self)@.mti }),
    {
        let mut i: usize = 0;
        while i < N
            invariant
                0 <= i <= N,
                self.mti == old(self).mti,
                self.mt@.len() == N,
                self.mt@ == twist_upto(old(self).mt@, i as nat),
            decreases N - i,
        {
            let y = (self.mt[i] & 0x8000_0000).wrapping_add(self.mt[(i + 1) % N] & 0x7fff_ffff);
            let mut v = (y >> 1) ^ self.mt[(i + 397) % N];
            if y % 2 != 0 {
                v = v ^ 0x9908_b0df;
            }
            self.mt.set(i, v);
            i = i + 1;
        }
    }

    /// The next 32-bit output.
    pub fn gen_u32(&mut self) -> (r: u32)
        requires
            old(self).wf(),
        ensures
            final(self).wf(),
            (r, final(self)@) == draw(old(self)@),
    {
        if self.mti == 0 {
            self.twist();
        }
        let mut y = self.mt[self.mti];
        y = y ^ (y >> 11);
        y = y ^ ((y << 7) & 2636928640);
        y = y ^ ((y << 15) & 4022730752);
        y = y ^ (y >> 18);
        self.mti = (self.mti + 1) % N;
        y
    }

    fn key_step_exec(mt: &mut Vec<u32>, i: usize, j: usize, seed: &[u32]) -> (r: (usize, usize))
        requires
            old(mt)@.len() == N,
            1 <= i < N,
            j < seed@.len(),
        ensures
            final(mt)@.len() == N,
            1 <= r.0 < N,
            r.1 < seed@.len(),
            (final(mt)@, r.0 as int, r.1 as int) == key_step((old(mt)@, i as int, j as int), seed@),
    {
        let p = mt[i - 1];
        let tmp = (p ^ (p >> 30)).wrapping_mul(1_664_525u32);
        let jw: u32 = ((j as u64) % 0x1_0000_0000u64) as u32;
        let s1 = (mt[i] ^ tmp).wrapping_add(seed[j]);
        let v = s1.wrapping_add(jw);
        proof {
            let a = (old(mt)@[i as int] ^ tmp) as int + seed@[j as int] as int;
            assert(s1 as int == a % 0x1_0000_0000);
            assert(jw as int == (j as int) % 0x1_0000_0000);
            assert(v as int == (s1 as int + jw as int) % 0x1_0000_0000);
            vstd::arithmetic::div_mod::lemma_add_mod_noop(a, j as int, 0x1_0000_0000);
            assert(v == wrap(a + j));
        }
        mt.set(i, v);
        let mut i2 = i + 1;
        if i2 >= N {
            i2 = 1;
            let last = mt[N - 1];
            mt.set(0, last);
        }
        let j2 = if j + 1 >= seed.len() { 0 } else { j + 1 };
        (i2, j2)
    }

    fn tail_step_exec(mt: &mut Vec<u32>, i: usize) -> (r: usize)
        requires
            old(mt)@.len() == N,
            1 <= i < N,
        ensures
            final(mt)@.len() == N,
            1 <= r < N,
            (final(mt)@, r as int) == tail_step((old(mt)@, i as int)),
    {
        let p = mt[i - 1];
        let tmp = (p ^ (p >> 30)).wrapping_mul(1_566_083_941);
        let v = (mt[i] ^ tmp).wrapping_sub(i as u32);
        mt.set(i, v);
        let mut i2 = i + 1;
        if i2 >= N {
            i2 = 1;
            let last = mt[N - 1];
            mt.set(0, last);
        }
        i2
    }

    /// A generator seeded with the words of `seed` (Matsumoto and Nishimura's `init_by_array`).
    pub fn new_with_slice(seed: &[u32]) -> (r: MT19937)
        requires
            seed@.len() > 0,
        ensures
            r.wf(),
            r@ == (MtState { mt: seeded_by_array(seed@), mti: 0 }),
    {
        let mut mt = MT19937::new(19_650_218);
        let mut i: usize = 1;
        let mut j: usize = 0;
        let total: usize = if N > seed.len() { N } else { seed.len() };
        let mut k: usize = total;
        while k != 0
            invariant
                mt.wf(),
                mt.mti == 0,
                k <= total,
                total == (if seed@.len() < N { N as nat } else { seed@.len() }),
                1 <= i < N,
                j < seed@.len(),
                (mt.mt@, i as int, j as int) == mix_key(seeded(19650218), 1, 0, seed@, (total - k) as nat),
            decreases k,
        {
            let (i2, j2) = Self::key_step_exec(&mut mt.mt, i, j, seed);
            i = i2;
            j = j2;
            k = k - 1;
        }
        let ghost m1 = mt.mt@;
        let ghost i1 = i as int;
        k = N - 1;
        while k != 0
            invariant
                mt.wf(),
                mt.mti == 0,
                k <= N - 1,
                1 <= i < N,
                (mt.mt@, i as int) == mix_tail(m1, i1, (N - 1 - k) as nat),
            decreases k,
        {
            i = Self::tail_step_exec(&mut mt.mt, i);
            k = k - 1;
        }
        mt.mt.set(0, 0x8000_0000u32);
        mt
    }

    /// An output reduced below `stop`.
    pub fn gen_below(&mut self, stop: u32) -> (r: u32)
        requires
            old(self).wf(),
            stop > 0,
        ensures
            final(self).wf(),
            r == draw(old(self)@).0 % stop,
            final(self)@ == draw(old(self)@).1,
    {
        self.gen_u32() % stop
    }

    /// An item of `array` picked by one draw.
    pub fn choice<T: Copy>(&mut self, array: &[T]) -> (r: T)
        requires
            old(self).wf(),
            0 < array@.len() <= u32::MAX,
        ensures
            final(self).wf(),
            r == array@[(draw(old(self)@).0 % (array@.len() as u32)) as int],
            final(self)@ == draw(old(self)@).1,
    {
        let i = self.gen_below(array.len() as u32);
        array[i as usize]
    }

    /// Shuffles `array` in place (Fisher-Yates, from the back).
    pub fn shuffle<T>(&mut self, array: &mut [T])
        requires
            old(self).wf(),
            old(array)@.len() <= u32::MAX,
        ensures
            final(self).wf(),
            old(array)@.len() == 0 ==> final(array)@ == old(array)@ && final(self)@ == old(self)@,
            old(array)@.len() > 0 ==> (final(array)@, final(self)@) == shuffled(old(array)@, old(self)@, (old(array)@.len() - 1) as nat),
            final(array)@.to_multiset() == old(array)@.to_multiset(),
    {
        let n = array.len();
        if n == 0 {
            return;
        }
        let mut i: usize = n - 1;
        while i > 0
            invariant
                self.wf(),
                array@.len() == n,
                n <= u32::MAX,
                i < n,
                shuffled(array@, self@, i as nat) == shuffled(old(array)@, old(self)@, (n - 1) as nat),
                array@.to_multiset() == old(array)@.to_multiset(),
            decreases i,
        {
            let j = self.gen_below(i as u32 + 1) as usize;
            proof {
                crate::sorting::lemma_swap_perm(array@, i as int, j as int);
            }
            crate::sorting::swap_items(array, i, j);
            i = i - 1;
        }
    }
}

} // verus!
