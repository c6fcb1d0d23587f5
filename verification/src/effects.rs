//! The visual effects and their settings: polymorphic variants over a
//! shared set of tags, with one update operation per variant.

use crate::color::{set_color, Color};
use vstd::prelude::*;

verus! {

/// How much a ripple's brightness drops per tick; a ripple at or below
/// this retires.
pub const RIPLE_FADE: u8 = 16;

/// Multiplier of the spawn generator's linear congruential step.
pub const RNG_MUL: u64 = 6364136223846793005;

/// Increment of the spawn generator's linear congruential step.
pub const RNG_INC: u64 = 1442695040888963407;

/// Tunables for the moody effect: the one color it paints.
pub struct MoodySettings {
    pub color: Color,
}

/// Tunables for the raindrop effect: how far a ripple travels per tick,
/// and the per-mille probability that a tick spawns a fresh drop.
pub struct RaindropSettings {
    pub rain_speed: usize,
    pub drop_rate_pm: u32,
}

/// Parameters for a script-driven effect, opaque to the core; the
/// external host interprets them.
pub struct ScriptSettings {
    pub params: String,
}

/// The settings variants, tagged like the effect variants.
pub enum Settings {
    Moody(MoodySettings),
    Raindrop(RaindropSettings),
    Script(ScriptSettings),
}

/// The moody effect: paints its whole interval one color.
pub struct Moody {
    pub id: i32,
}

/// One travelling drop: its distance from the interval's start, and how
/// bright it still shines.
#[derive(Clone, Copy, PartialEq, Eq, Structural, Debug)]
pub struct Riple {
    pub position: usize,
    pub intensity: u8,
}

/// Raindrop state carried across ticks: the live ripples and the
/// generator that decides spawns.
pub struct RaindropState {
    pub riples: Vec<Riple>,
    pub rng: u64,
}

/// The raindrop effect: stateful ripples over a fading background.
pub struct Raindrops {
    pub id: i32,
    pub state: RaindropState,
}

/// A script-driven effect: its per-tick computation runs in an external
/// host; the core only places the host's output (`apply_script_output`).
pub struct ScriptEffect {
    pub id: i32,
}

/// The effect variants.
pub enum Effect {
    Moody(Moody),
    Raindrop(Raindrops),
    Script(ScriptEffect),
}

impl Effect {
    /// The effect's stable identifier, chosen at setup time.
    pub fn id(&self) -> (r: i32)
        ensures
            r == self.spec_id(),
    {
        match self {
            Effect::Moody(m) => m.id,
            Effect::Raindrop(r) => r.id,
            Effect::Script(s) => s.id,
        }
    }

    pub open spec fn spec_id(&self) -> i32 {
        match self {
            Effect::Moody(m) => m.id,
            Effect::Raindrop(r) => r.id,
            Effect::Script(s) => s.id,
        }
    }
}

/// Whether a settings entity carries the same variant tag as an effect:
/// the binding invariant whose violation the scheduler treats as fatal.
pub open spec fn tags_match(e: Effect, s: Settings) -> bool {
    match (e, s) {
        (Effect::Moody(_), Settings::Moody(_)) => true,
        (Effect::Raindrop(_), Settings::Raindrop(_)) => true,
        (Effect::Script(_), Settings::Script(_)) => true,
        _ => false,
    }
}

/// Paints every LED of the inclusive interval `[lo, hi]` with the
/// configured color; LEDs outside the interval keep their colors.
pub fn update_moody(colors: &mut Vec<Color>, lo: usize, hi: usize, settings: &MoodySettings)
    requires
        lo <= hi < old(colors)@.len(),
    ensures
        final(colors)@.len() == old(colors)@.len(),
        forall|m: int| lo <= m <= hi ==> final(colors)@[m] == settings.color,
        forall|m: int|
            0 <= m < old(colors)@.len() && !(lo <= m <= hi) ==> final(colors)@[m] == old(
                colors,
            )@[m],
{
    let n: usize = colors.len();
    let mut m: usize = lo;
    while m <= hi
        invariant
            lo <= m <= hi + 1,
            hi < n,
            colors@.len() == n,
            n == old(colors)@.len(),
            forall|t: int| lo <= t < m ==> colors@[t] == settings.color,
            forall|t: int| 0 <= t < n && !(lo <= t < m) ==> colors@[t] == old(colors)@[t],
        decreases hi + 1 - m,
    {
        set_color(colors, m, settings.color);
        m = m + 1;
    }
}

/// One tick's fade of a color a quarter of the way toward black.
pub open spec fn spec_dim(c: Color) -> Color {
    Color { r: (c.r - c.r / 4) as u8, g: (c.g - c.g / 4) as u8, b: (c.b - c.b / 4) as u8 }
}

/// The white shade a ripple of the given brightness paints.
pub open spec fn spec_shade(i: u8) -> Color {
    Color { r: i, g: i, b: i }
}

/// Next state of the spawn generator: a linear congruential step.
pub open spec fn next_rng(x: u64) -> u64 {
    (((x as int) * (RNG_MUL as int) + (RNG_INC as int)) % 0x10000000000000000) as u64
}

/// The ripples after one tick of travel: each moves `speed` offsets
/// onward and dims by `RIPLE_FADE`; those that would leave the interval
/// or fade out retire.
pub open spec fn step_riples(rs: Seq<Riple>, speed: int, width: int) -> Seq<Riple>
    decreases rs.len(),
{
    if rs.len() == 0 {
        Seq::empty()
    } else {
        let rest = step_riples(rs.drop_last(), speed, width);
        let last = rs.last();
        if last.position + speed < width && last.intensity > RIPLE_FADE {
            rest.push(
                Riple {
                    position: (last.position + speed) as usize,
                    intensity: (last.intensity - RIPLE_FADE) as u8,
                },
            )
        } else {
            rest
        }
    }
}

/// Whether the generator's fresh value spawns a drop this tick.
pub open spec fn spawns(r: u64, drop_rate_pm: u32) -> bool {
    (r as int) % 1000 < drop_rate_pm
}

/// Where a spawned drop lands inside an interval of the given width.
pub open spec fn spawn_position(r: u64, width: int) -> int {
    ((r as int) / 0x100000000) % width
}

/// The ripples after one full update: travel and fade, then perhaps one
/// fresh full-brightness drop where the generator points.
pub open spec fn updated_riples(
    rs: Seq<Riple>,
    speed: int,
    width: int,
    r: u64,
    drop_rate_pm: u32,
) -> Seq<Riple> {
    let moved = step_riples(rs, speed, width);
    if spawns(r, drop_rate_pm) {
        moved.push(Riple { position: spawn_position(r, width) as usize, intensity: 255 })
    } else {
        moved
    }
}

/// The brightness of the latest ripple sitting at offset `j`, if any
/// (later ripples overwrite earlier ones).
pub open spec fn riple_at(rs: Seq<Riple>, j: int) -> Option<u8>
    decreases rs.len(),
{
    if rs.len() == 0 {
        None
    } else if rs.last().position == j {
        Some(rs.last().intensity)
    } else {
        riple_at(rs.drop_last(), j)
    }
}

/// What LED `m` of the interval starting at `lo` shows after an update
/// with ripples `rs`: the latest ripple on it, or its old color faded.
pub open spec fn rendered(oldc: Seq<Color>, rs: Seq<Riple>, lo: int, m: int) -> Color {
    match riple_at(rs, m - lo) {
        Some(i) => spec_shade(i),
        None => spec_dim(oldc[m]),
    }
}

/// One linear congruential step of the spawn generator.
fn lcg_next(x: u64) -> (r: u64)
    ensures
        r == next_rng(x),
{
    proof {
        assert((x as int) * (RNG_MUL as int) <= (u64::MAX as int) * (RNG_MUL as int))
            by (nonlinear_arith)
            requires
                0 <= x as int <= u64::MAX as int,
        ;
        assert(0 <= (x as int) * (RNG_MUL as int)) by (nonlinear_arith)
            requires
                0 <= x as int,
        ;
    }
    let wide: u128 = (x as u128) * (RNG_MUL as u128) + (RNG_INC as u128);
    (wide % 0x10000000000000000u128) as u64
}

/// One tick of the raindrop effect on the inclusive interval `[lo, hi]`:
/// the background fades a quarter toward black, every live ripple
/// travels `rain_speed` offsets and dims, and with probability
/// `drop_rate_pm` per mille a fresh drop spawns where the generator
/// points.  LEDs outside the interval keep their colors.
pub fn update_raindrop(
    colors: &mut Vec<Color>,
    lo: usize,
    hi: usize,
    settings: &RaindropSettings,
    state: &mut RaindropState,
)
    requires
        lo <= hi < old(colors)@.len(),
    ensures
        final(colors)@.len() == old(colors)@.len(),
        final(state).rng == next_rng(old(state).rng),
        final(state).riples@ == updated_riples(
            old(state).riples@,
            settings.rain_speed as int,
            hi - lo + 1,
            next_rng(old(state).rng),
            settings.drop_rate_pm,
        ),
        forall|m: int|
            lo <= m <= hi ==> final(colors)@[m] == rendered(
                old(colors)@,
                final(state).riples@,
                lo as int,
                m,
            ),
        forall|m: int|
            0 <= m < old(colors)@.len() && !(lo <= m <= hi) ==> final(colors)@[m] == old(
                colors,
            )@[m],
{
    let n: usize = colors.len();
    let width: usize = hi - lo + 1;
    let ghost speed = settings.rain_speed as int;

    let mut moved: Vec<Riple> = Vec::new();
    let mut idx: usize = 0;
    while idx < state.riples.len()
        invariant
            idx <= state.riples@.len(),
            state.riples@ == old(state).riples@,
            state.rng == old(state).rng,
            moved@ == step_riples(state.riples@.take(idx as int), speed, width as int),
            speed == settings.rain_speed as int,
        decreases state.riples@.len() - idx,
    {
        let rp = state.riples[idx];
        proof {
            assert(state.riples@.take(idx + 1).drop_last() =~= state.riples@.take(idx as int));
            assert(state.riples@.take(idx + 1).last() == rp);
        }
        if (rp.position as u128) + (settings.rain_speed as u128) < (width as u128)
            && rp.intensity > RIPLE_FADE {
            moved.push(
                Riple {
                    position: rp.position + settings.rain_speed,
                    intensity: rp.intensity - RIPLE_FADE,
                },
            );
        }
        idx = idx + 1;
    }
    proof {
        assert(state.riples@.take(state.riples@.len() as int) =~= state.riples@);
    }

    let fresh: u64 = lcg_next(state.rng);
    state.rng = fresh;
    if fresh % 1000 < settings.drop_rate_pm as u64 {
        let pos: usize = ((fresh / 0x100000000u64) % (width as u64)) as usize;
        moved.push(Riple { position: pos, intensity: 255 });
    }
    proof {
        assert(moved@ == updated_riples(
            old(state).riples@,
            settings.rain_speed as int,
            width as int,
            fresh,
            settings.drop_rate_pm,
        ));
    }
    state.riples = moved;
    let ghost rips = state.riples@;

    let mut m: usize = lo;
    while m <= hi
        invariant
            lo <= m <= hi + 1,
            hi < n,
            colors@.len() == n,
            n == old(colors)@.len(),
            state.riples@ == rips,
            state.rng == next_rng(old(state).rng),
            forall|t: int|
                lo <= t < m ==> colors@[t] == rendered(old(colors)@, rips, lo as int, t),
            forall|t: int| 0 <= t < n && !(lo <= t < m) ==> colors@[t] == old(colors)@[t],
        decreases hi + 1 - m,
    {
        let off: usize = m - lo;
        let mut found: Option<u8> = None;
        let mut t: usize = 0;
        while t < state.riples.len()
            invariant
                t <= state.riples@.len(),
                state.riples@ == rips,
                found == riple_at(rips.take(t as int), off as int),
            decreases state.riples@.len() - t,
        {
            proof {
                assert(rips.take(t + 1).drop_last() =~= rips.take(t as int));
                assert(rips.take(t + 1).last() == rips[t as int]);
            }
            if state.riples[t].position == off {
                found = Some(state.riples[t].intensity);
            }
            t = t + 1;
        }
        proof {
            assert(rips.take(rips.len() as int) =~= rips);
        }
        let c: Color = match found {
            Some(i) => Color { r: i, g: i, b: i },
            None => {
                let prev = colors[m];
                Color {
                    r: prev.r - prev.r / 4,
                    g: prev.g - prev.g / 4,
                    b: prev.b - prev.b / 4,
                }
            },
        };
        set_color(colors, m, c);
        m = m + 1;
    }
}

/// Places one tick's script-host output on the inclusive interval
/// `[lo, hi]`: copied only when the host produced exactly one color per
/// LED; otherwise (the script failed, or returned the wrong shape) the
/// interval keeps its previous colors and the tick goes on — script
/// failure is never fatal.
pub fn apply_script_output(
    colors: &mut Vec<Color>,
    lo: usize,
    hi: usize,
    output: &Vec<Color>,
) -> (applied: bool)
    requires
        lo <= hi < old(colors)@.len(),
    ensures
        final(colors)@.len() == old(colors)@.len(),
        applied <==> output@.len() == hi - lo + 1,
        applied ==> forall|m: int| lo <= m <= hi ==> final(colors)@[m] == output@[m - lo],
        applied ==> forall|m: int|
            0 <= m < old(colors)@.len() && !(lo <= m <= hi) ==> final(colors)@[m] == old(
                colors,
            )@[m],
        !applied ==> final(colors)@ == old(colors)@,
{
    let n: usize = colors.len();
    let width: usize = hi - lo + 1;
    if output.len() != width {
        return false;
    }
    let mut m: usize = lo;
    while m <= hi
        invariant
            lo <= m <= hi + 1,
            hi < n,
            colors@.len() == n,
            n == old(colors)@.len(),
            output@.len() == hi - lo + 1,
            forall|t: int| lo <= t < m ==> colors@[t] == output@[t - lo],
            forall|t: int| 0 <= t < n && !(lo <= t < m) ==> colors@[t] == old(colors)@[t],
        decreases hi + 1 - m,
    {
        set_color(colors, m, output[m - lo]);
        m = m + 1;
    }
    true
}

} // verus!
